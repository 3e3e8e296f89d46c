//! The room registry: the process-wide mapping from room key to room.

use vstd::prelude::*;

use crate::room::Room;
use crate::user::User;
use crate::util::key_of;

verus! {

/// A failed lookup. A missing room or a user absent from every room indicates
/// a consistency violation for operations that expect them present; callers
/// log it and drop the operation rather than crash.
#[derive(Clone, Copy, Debug, PartialEq, Eq, Structural)]
pub enum RegistryError {
    RoomNotFound,
    UserNotFound,
}

/// The registry of all rooms. The distinguished "hub" room exists from the
/// start; further rooms are created on demand and persist forever.
pub struct RoomRegistry {
    pub rooms: Vec<Room>,
}

impl RoomRegistry {
    /// Whether a room with the given key exists.
    pub open spec fn has_room_key(self, key: u64) -> bool {
        exists|i: int| 0 <= i < self.rooms@.len() && (#[trigger] self.rooms@[i]).key == key
    }

    /// The position of the room with the given key.
    pub open spec fn room_idx(self, key: u64) -> int {
        choose|i: int| 0 <= i < self.rooms@.len() && (#[trigger] self.rooms@[i]).key == key
    }

    /// Whether the user with identity `uid` occupies some room.
    pub open spec fn has_user(self, uid: u64) -> bool {
        exists|i: int| 0 <= i < self.rooms@.len() && (#[trigger] self.rooms@[i]).has_user(uid)
    }

    /// The position of the room occupied by the user with identity `uid`.
    pub open spec fn user_room_idx(self, uid: u64) -> int {
        choose|i: int| 0 <= i < self.rooms@.len() && (#[trigger] self.rooms@[i]).has_user(uid)
    }

    /// The room occupied by the user with identity `uid`.
    pub open spec fn user_room(self, uid: u64) -> Room {
        self.rooms@[self.user_room_idx(uid)]
    }

    /// The record of the user with identity `uid`.
    pub open spec fn spec_user(self, uid: u64) -> User {
        self.user_room(uid).occupants@[self.user_room(uid).user_idx(uid)]
    }

    /// Registry consistency: room keys are unique, each room is well formed,
    /// and a user occupies at most one room.
    pub open spec fn wf(self) -> bool {
        &&& forall|i: int, j: int|
            0 <= i < j < self.rooms@.len() ==> (#[trigger] self.rooms@[i]).key != (
            #[trigger] self.rooms@[j]).key
        &&& forall|i: int| 0 <= i < self.rooms@.len() ==> (#[trigger] self.rooms@[i]).wf()
        &&& forall|i: int, j: int, uid: u64|
            0 <= i < self.rooms@.len() && 0 <= j < self.rooms@.len() && i != j && (
            #[trigger] self.rooms@[i].has_user(uid)) ==> !(#[trigger] self.rooms@[j].has_user(
                uid,
            ))
    }

    /// In a well-formed registry the room index of a key is the unique
    /// position holding that key.
    pub proof fn lemma_room_idx_unique(self, key: u64, i: int)
        requires
            self.wf(),
            0 <= i < self.rooms@.len(),
            self.rooms@[i].key == key,
        ensures
            self.has_room_key(key),
            self.room_idx(key) == i,
    {
        assert(self.has_room_key(key));
        let c = self.room_idx(key);
        if c != i {
            if c < i {
                assert(self.rooms@[c].key != self.rooms@[i].key);
            } else {
                assert(self.rooms@[i].key != self.rooms@[c].key);
            }
        }
    }

    /// In a well-formed registry the room of a user is the unique room that
    /// holds the user.
    pub proof fn lemma_user_room_unique(self, uid: u64, i: int)
        requires
            self.wf(),
            0 <= i < self.rooms@.len(),
            self.rooms@[i].has_user(uid),
        ensures
            self.has_user(uid),
            self.user_room_idx(uid) == i,
    {
        assert(self.has_user(uid));
        let c = self.user_room_idx(uid);
        assert(self.rooms@[c].has_user(uid));
    }

    /// A present user's record carries its identity, and its `room` field
    /// equals the key of the room that holds it.
    pub proof fn lemma_user_record(self, uid: u64)
        requires
            self.wf(),
            self.has_user(uid),
        ensures
            0 <= self.user_room_idx(uid) < self.rooms@.len(),
            self.user_room(uid).has_user(uid),
            0 <= self.user_room(uid).user_idx(uid) < self.user_room(uid).occupants@.len(),
            self.spec_user(uid).id == uid,
            self.spec_user(uid).room == self.user_room(uid).key,
    {
        let i = self.user_room_idx(uid);
        assert(self.rooms@[i].has_user(uid));
        let j = self.rooms@[i].user_idx(uid);
        assert(0 <= j < self.rooms@[i].occupants@.len() && self.rooms@[i].occupants@[j].id == uid);
    }

    /// The registry at process start: only the hub room, empty.
    pub fn new() -> (r: RoomRegistry)
        ensures
            r.wf(),
            r.rooms@.len() == 1,
            r.rooms@[0].key == key_of("hub"@),
            r.rooms@[0].occupants@.len() == 0,
            r.rooms@[0].history@.len() == 0,
    {
        let hub_key = crate::util::hash(String::from_str("hub"));
        let mut rooms: Vec<Room> = Vec::new();
        rooms.push(Room::new(hub_key));
        RoomRegistry { rooms }
    }

    pub(crate) fn find_room(&self, key: u64) -> (r: Option<usize>)
        ensures
            match r {
                Some(i) => i < self.rooms@.len() && self.rooms@[i as int].key == key,
                None => !self.has_room_key(key),
            },
            r is Some <==> self.has_room_key(key),
    {
        let mut i: usize = 0;
        while i < self.rooms.len()
            invariant
                i <= self.rooms@.len(),
                forall|j: int| 0 <= j < i ==> (#[trigger] self.rooms@[j]).key != key,
            decreases self.rooms@.len() - i,
        {
            if self.rooms[i].key == key {
                return Some(i);
            }
            i = i + 1;
        }
        None
    }

    /// Whether a room with the given key exists.
    pub fn contains_room(&self, key: u64) -> (b: bool)
        ensures
            b == self.has_room_key(key),
    {
        self.find_room(key).is_some()
    }

    /// Looks a room up by key; a missing room is `RoomNotFound`.
    pub fn get(&self, key: u64) -> (r: Result<&Room, RegistryError>)
        requires
            self.wf(),
        ensures
            match r {
                Ok(room) => self.has_room_key(key) && *room == self.rooms@[self.room_idx(key)]
                    && room.key == key,
                Err(e) => e == RegistryError::RoomNotFound && !self.has_room_key(key),
            },
    {
        match self.find_room(key) {
            Some(i) => {
                proof {
                    self.lemma_room_idx_unique(key, i as int);
                }
                Ok(&self.rooms[i])
            },
            None => Err(RegistryError::RoomNotFound),
        }
    }

    /// Whether the user with identity `uid` occupies some room.
    pub fn contains_user(&self, uid: u64) -> (b: bool)
        ensures
            b == self.has_user(uid),
    {
        let mut i: usize = 0;
        while i < self.rooms.len()
            invariant
                i <= self.rooms@.len(),
                forall|j: int| 0 <= j < i ==> !(#[trigger] self.rooms@[j]).has_user(uid),
            decreases self.rooms@.len() - i,
        {
            if self.rooms[i].find_user(uid).is_some() {
                proof {
                    assert(self.rooms@[i as int].has_user(uid));
                }
                return true;
            }
            i = i + 1;
        }
        false
    }
    /// Finds which room holds the user with identity `uid`, and at which
    /// position among its occupants.
    pub fn locate_user(&self, uid: u64) -> (r: Option<(usize, usize)>)
        ensures
            match r {
                Some(p) => p.0 < self.rooms@.len() && p.1 < self.rooms@[p.0 as int].occupants@.len()
                    && self.rooms@[p.0 as int].occupants@[p.1 as int].id == uid && self.has_user(
                    uid,
                ),
                None => !self.has_user(uid),
            },
    {
        let mut i: usize = 0;
        while i < self.rooms.len()
            invariant
                i <= self.rooms@.len(),
                forall|k: int| 0 <= k < i ==> !(#[trigger] self.rooms@[k]).has_user(uid),
            decreases self.rooms@.len() - i,
        {
            if let Some(j) = self.rooms[i].find_user(uid) {
                proof {
                    assert(self.rooms@[i as int].has_user(uid));
                }
                return Some((i, j));
            }
            i = i + 1;
        }
        None
    }

    /// Returns the position of the room with the given key, creating the room
    /// first if it does not exist yet.
    pub fn get_or_create(&mut self, key: u64) -> (i: usize)
        requires
            old(self).wf(),
        ensures
            final(self).wf(),
            create_post(*old(self), *final(self), key, i as int),
    {
        match self.find_room(key) {
            Some(i) => {
                proof {
                    self.lemma_room_idx_unique(key, i as int);
                }
                i
            },
            None => {
                let i = self.rooms.len();
                self.rooms.push(Room::new(key));
                proof {
                    assert(self.rooms@.subrange(0, old(self).rooms@.len() as int) =~= old(
                        self,
                    ).rooms@);
                    assert forall|a: int, b: int| 0 <= a < b < self.rooms@.len() implies (
                    #[trigger] self.rooms@[a]).key != (#[trigger] self.rooms@[b]).key by {
                        if b == i {
                            assert(self.rooms@[a] == old(self).rooms@[a]);
                        }
                    }
                }
                i
            },
        }
    }

    /// Admits a user into the room with key `room_hash`: the connection
    /// registrar's step, run once per connection before its workers start.
    pub fn register_user(&mut self, user: User, room_hash: u64) -> (r: Result<
        (),
        RegistryError,
    >)
        requires
            old(self).wf(),
            !old(self).has_user(user.id),
            user.room == room_hash,
        ensures
            match r {
                Ok(_) => old(self).has_room_key(room_hash) && final(self).wf() && register_post(
                    *old(self),
                    *final(self),
                    user,
                ) && final(self).has_user(user.id),
                Err(e) => e == RegistryError::RoomNotFound && !old(self).has_room_key(room_hash)
                    && *final(self) == *old(self),
            },
    {
        match self.find_room(room_hash) {
            Some(i) => {
                proof {
                    self.lemma_room_idx_unique(room_hash, i as int);
                }
                let mut room = self.rooms.remove(i);
                room.occupants.push(user);
                self.rooms.insert(i, room);
                proof {
                    assert(self.rooms@ =~= old(self).rooms@.update(
                        i as int,
                        self.rooms@[i as int],
                    ));
                    let di = i as int;
                    assert forall|a: int| 0 <= a < self.rooms@.len() implies (
                    #[trigger] self.rooms@[a]).wf() by {
                        if a != di {
                            assert(self.rooms@[a] == old(self).rooms@[a]);
                        } else {
                            let occs = old(self).rooms@[di].occupants@;
                            assert forall|x: int, y: int|
                                0 <= x < y < occs.push(user).len() implies occs.push(user)[x].id
                                != occs.push(user)[y].id by {
                                if y < occs.len() {
                                    assert(old(self).rooms@[di].wf());
                                } else {
                                    assert(occs.push(user)[y] == user);
                                    assert(!old(self).rooms@[di].has_user(user.id));
                                }
                            }
                        }
                    }
                    assert forall|a: int, b: int, uid: u64|
                        0 <= a < self.rooms@.len() && 0 <= b < self.rooms@.len() && a != b && (
                        #[trigger] self.rooms@[a].has_user(uid)) implies !(
                    #[trigger] self.rooms@[b].has_user(uid)) by {
                        lemma_push_has_user(old(self).rooms@[di], user, self.rooms@[di]);
                        if a != di {
                            assert(self.rooms@[a] == old(self).rooms@[a]);
                        }
                        if b != di {
                            assert(self.rooms@[b] == old(self).rooms@[b]);
                        }
                        if a == di {
                            if uid == user.id {
                                assert(!old(self).rooms@[b].has_user(uid));
                            } else {
                                assert(old(self).rooms@[di].has_user(uid));
                            }
                        } else if b == di {
                            if uid == user.id {
                                assert(!old(self).rooms@[a].has_user(uid));
                            } else {
                                assert(old(self).rooms@[a].has_user(uid));
                            }
                        }
                    }
                    assert(self.rooms@[di].has_user(user.id)) by {
                        let n = old(self).rooms@[di].occupants@.len() as int;
                        assert(self.rooms@[di].occupants@[n].id == user.id);
                    }
                }
                Ok(())
            },
            None => Err(RegistryError::RoomNotFound),
        }
    }

    /// Removes a user from whichever room holds it: the authoritative
    /// disconnect path, driven by the ingress router on stream closure.
    pub fn remove_user(&mut self, uid: u64) -> (r: Result<(), RegistryError>)
        requires
            old(self).wf(),
        ensures
            match r {
                Ok(_) => old(self).has_user(uid) && final(self).wf() && remove_post(
                    *old(self),
                    *final(self),
                    uid,
                ) && !final(self).has_user(uid),
                Err(e) => e == RegistryError::UserNotFound && !old(self).has_user(uid)
                    && *final(self) == *old(self),
            },
    {
        let mut i: usize = 0;
        while i < self.rooms.len()
            invariant
                *self == *old(self),
                old(self).wf(),
                i <= self.rooms@.len(),
                forall|k: int| 0 <= k < i ==> !(#[trigger] self.rooms@[k]).has_user(uid),
            decreases self.rooms@.len() - i,
        {
            let found = self.rooms[i].find_user(uid);
            match found {
                Some(j) => {
                    proof {
                        self.lemma_user_room_unique(uid, i as int);
                        self.rooms@[i as int].lemma_user_idx_unique(uid, j as int);
                    }
                    let mut room = self.rooms.remove(i);
                    room.occupants.remove(j);
                    self.rooms.insert(i, room);
                    proof {
                        assert(self.rooms@ =~= old(self).rooms@.update(
                            i as int,
                            self.rooms@[i as int],
                        ));
                        let ri = i as int;
                        lemma_remove_has_user(old(self).rooms@[ri], j as int, self.rooms@[ri]);
                        assert forall|a: int| 0 <= a < self.rooms@.len() implies (
                        #[trigger] self.rooms@[a]).wf() by {
                            if a != ri {
                                assert(self.rooms@[a] == old(self).rooms@[a]);
                            }
                        }
                        assert forall|a: int, b: int, u2: u64|
                            0 <= a < self.rooms@.len() && 0 <= b < self.rooms@.len() && a != b && (
                            #[trigger] self.rooms@[a].has_user(u2)) implies !(
                        #[trigger] self.rooms@[b].has_user(u2)) by {
                            if a != ri {
                                assert(self.rooms@[a] == old(self).rooms@[a]);
                            } else {
                                assert(old(self).rooms@[a].has_user(u2));
                            }
                            if b != ri {
                                assert(self.rooms@[b] == old(self).rooms@[b]);
                            }
                        }
                        assert(!self.has_user(uid)) by {
                            assert forall|a: int|
                                0 <= a < self.rooms@.len() implies !(
                            #[trigger] self.rooms@[a]).has_user(uid) by {
                                if a != ri {
                                    assert(self.rooms@[a] == old(self).rooms@[a]);
                                    assert(!old(self).rooms@[a].has_user(uid));
                                }
                            }
                        }
                    }
                    return Ok(());
                },
                None => {
                    i = i + 1;
                },
            }
        }
        Err(RegistryError::UserNotFound)
    }
}

/// What room creation leaves behind: an existing key leaves the registry
/// untouched; a fresh key appends one empty room. `i` is the room's position.
pub open spec fn create_post(pre: RoomRegistry, post: RoomRegistry, key: u64, i: int) -> bool {
    &&& 0 <= i < post.rooms@.len()
    &&& post.rooms@[i].key == key
    &&& if pre.has_room_key(key) {
        post == pre && i == pre.room_idx(key)
    } else {
        &&& post.rooms@.len() == pre.rooms@.len() + 1
        &&& i == pre.rooms@.len()
        &&& post.rooms@.subrange(0, pre.rooms@.len() as int) == pre.rooms@
        &&& post.rooms@[i].occupants@.len() == 0
        &&& post.rooms@[i].history@.len() == 0
    }
}

/// What admitting a user leaves behind: the user's record is appended to the
/// occupants of the room whose key is the user's `room` field; every other
/// room, every key and every history is untouched.
pub open spec fn register_post(pre: RoomRegistry, post: RoomRegistry, user: User) -> bool {
    let di = pre.room_idx(user.room);
    &&& pre.has_room_key(user.room)
    &&& post.rooms@.len() == pre.rooms@.len()
    &&& forall|i: int|
        0 <= i < pre.rooms@.len() && i != di ==> post.rooms@[i] == pre.rooms@[i]
    &&& post.rooms@[di].key == pre.rooms@[di].key
    &&& post.rooms@[di].history == pre.rooms@[di].history
    &&& post.rooms@[di].occupants@ == pre.rooms@[di].occupants@.push(user)
}

/// What removing a user leaves behind: the user's record is gone from the one
/// room that held it; every other room, every key and every history is
/// untouched.
pub open spec fn remove_post(pre: RoomRegistry, post: RoomRegistry, uid: u64) -> bool {
    let ri = pre.user_room_idx(uid);
    let r = pre.rooms@[ri];
    &&& pre.has_user(uid)
    &&& post.rooms@.len() == pre.rooms@.len()
    &&& forall|i: int|
        0 <= i < pre.rooms@.len() && i != ri ==> post.rooms@[i] == pre.rooms@[i]
    &&& post.rooms@[ri].key == r.key
    &&& post.rooms@[ri].history == r.history
    &&& post.rooms@[ri].occupants@ == r.occupants@.remove(r.user_idx(uid))
}

/// Membership of a room after appending one occupant.
pub(crate) proof fn lemma_push_has_user(pre: Room, user: User, post: Room)
    requires
        post.occupants@ == pre.occupants@.push(user),
    ensures
        forall|uid: u64| #[trigger]
            post.has_user(uid) <==> (pre.has_user(uid) || uid == user.id),
{
    assert forall|uid: u64| #[trigger] post.has_user(uid) implies (pre.has_user(uid) || uid
        == user.id) by {
        let j = post.user_idx(uid);
        assert(0 <= j < post.occupants@.len() && post.occupants@[j].id == uid);
        if j < pre.occupants@.len() {
            assert(pre.occupants@[j].id == uid);
        }
    }
    assert forall|uid: u64| pre.has_user(uid) || uid == user.id implies #[trigger] post.has_user(
        uid,
    ) by {
        if pre.has_user(uid) {
            let j = pre.user_idx(uid);
            assert(post.occupants@[j].id == uid);
        } else {
            let n = pre.occupants@.len() as int;
            assert(post.occupants@[n].id == user.id);
        }
    }
}

/// Membership of a well-formed room after removing the occupant at `j`.
pub(crate) proof fn lemma_remove_has_user(pre: Room, j: int, post: Room)
    requires
        pre.wf(),
        0 <= j < pre.occupants@.len(),
        post.occupants@ == pre.occupants@.remove(j),
    ensures
        forall|uid: u64| #[trigger]
            post.has_user(uid) <==> (pre.has_user(uid) && uid != pre.occupants@[j].id),
        post.wf() <==> (forall|i: int|
            0 <= i < post.occupants@.len() ==> (#[trigger] post.occupants@[i]).room == post.key),
{
    let removed = pre.occupants@[j].id;
    assert forall|uid: u64| #[trigger] post.has_user(uid) implies (pre.has_user(uid) && uid
        != removed) by {
        let k = post.user_idx(uid);
        assert(0 <= k < post.occupants@.len() && post.occupants@[k].id == uid);
        if k < j {
            assert(pre.occupants@[k].id == uid);
            assert(pre.occupants@[k].id != pre.occupants@[j].id);
        } else {
            assert(pre.occupants@[k + 1].id == uid);
            assert(pre.occupants@[j].id != pre.occupants@[k + 1].id);
        }
    }
    assert forall|uid: u64| pre.has_user(uid) && uid != removed implies #[trigger] post.has_user(
        uid,
    ) by {
        let k = pre.user_idx(uid);
        if k < j {
            assert(post.occupants@[k].id == uid);
        } else {
            assert(k != j);
            assert(post.occupants@[k - 1].id == uid);
        }
    }
    assert forall|x: int, y: int| 0 <= x < y < post.occupants@.len() implies post.occupants@[x].id
        != post.occupants@[y].id by {
        let px: int = if x < j {
            x
        } else {
            x + 1
        };
        let py: int = if y < j {
            y
        } else {
            y + 1
        };
        assert(post.occupants@[x] == pre.occupants@[px]);
        assert(post.occupants@[y] == pre.occupants@[py]);
    }
}

} // verus!
