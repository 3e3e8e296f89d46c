//! Broadcast fan-out: one chat payload delivered to every co-located peer.

use vstd::prelude::*;

use crate::registry::RegistryError;
use crate::registry::RoomRegistry;
use crate::room::strings_view;
use crate::room::Room;
use crate::rooms::joined;
use crate::rooms::prep_message_history;
use crate::user::User;

verus! {

/// One point-to-point delivery: a payload bound for a user's private inbox.
pub struct Delivery {
    pub to: u64,
    pub payload: String,
}

/// The deliveries as pairs of recipient identity and payload text.
pub open spec fn deliveries_view(dels: Seq<Delivery>) -> Seq<(u64, Seq<char>)> {
    dels.map_values(|d: Delivery| (d.to, d.payload@))
}

/// The fan-out of one broadcast: every occupant except the sender receives one
/// delivery, in occupant order. A caught-up occupant receives the payload
/// itself; one that is not receives `hist`, the room's whole joined history.
pub open spec fn spec_deliveries(
    occs: Seq<User>,
    sender: u64,
    msg: Seq<char>,
    hist: Seq<char>,
) -> Seq<(u64, Seq<char>)>
    decreases occs.len(),
{
    if occs.len() == 0 {
        Seq::empty()
    } else {
        let init = spec_deliveries(occs.drop_last(), sender, msg, hist);
        let u = occs.last();
        if u.id == sender {
            init
        } else {
            init.push((u.id, if u.up_to_date { msg } else { hist }))
        }
    }
}

/// What one broadcast leaves behind. The payload is appended to the sender's
/// room's history; every other occupant of that room gets one delivery — the
/// payload if caught up, the joined history (ending in the payload) if not —
/// and is marked caught up; occupant identities, rooms and labels, the
/// sender's own flag, and every other room are untouched.
pub open spec fn broadcast_post(
    pre: RoomRegistry,
    post: RoomRegistry,
    sender: u64,
    msg: Seq<char>,
    dels: Seq<Delivery>,
) -> bool {
    let ri = pre.user_room_idx(sender);
    let pre_room = pre.rooms@[ri];
    let post_room = post.rooms@[ri];
    let hist = joined(pre_room.history_view().push(msg));
    &&& pre.has_user(sender)
    &&& post.rooms@.len() == pre.rooms@.len()
    &&& forall|i: int|
        0 <= i < pre.rooms@.len() && i != ri ==> post.rooms@[i] == pre.rooms@[i]
    &&& post_room.key == pre_room.key
    &&& post_room.history_view() == pre_room.history_view().push(msg)
    &&& post_room.occupants@.len() == pre_room.occupants@.len()
    &&& forall|j: int|
        0 <= j < pre_room.occupants@.len() ==> (#[trigger] post_room.occupants@[j]).id
            == pre_room.occupants@[j].id && post_room.occupants@[j].room
            == pre_room.occupants@[j].room && post_room.occupants@[j].addr
            == pre_room.occupants@[j].addr && post_room.occupants@[j].up_to_date == (
        if pre_room.occupants@[j].id == sender {
            pre_room.occupants@[j].up_to_date
        } else {
            true
        })
    &&& deliveries_view(dels) == spec_deliveries(pre_room.occupants@, sender, msg, hist)
}

/// Two rooms whose occupants carry the same identities hold the same users.
proof fn lemma_same_ids_same_users(a: Room, b: Room)
    requires
        a.occupants@.len() == b.occupants@.len(),
        forall|j: int|
            0 <= j < a.occupants@.len() ==> (#[trigger] a.occupants@[j]).id == b.occupants@[j].id,
    ensures
        forall|uid: u64| #[trigger] a.has_user(uid) <==> #[trigger] b.has_user(uid),
{
    assert forall|uid: u64| #[trigger] a.has_user(uid) implies b.has_user(uid) by {
        let j = a.user_idx(uid);
        assert(b.occupants@[j].id == uid);
    }
    assert forall|uid: u64| #[trigger] b.has_user(uid) implies a.has_user(uid) by {
        let j = b.user_idx(uid);
        assert(a.occupants@[j].id == uid);
    }
}

impl RoomRegistry {
    /// Dispatches one chat payload from `sender`: appends it to the sender's
    /// room's history and returns one delivery per co-located peer — the
    /// payload itself for a caught-up peer, the room's joined history for one
    /// that is not, who is thereby marked caught up. A sender found in no room
    /// is a consistency violation: the registry is left unchanged and the
    /// operation reports `UserNotFound`.
    pub fn broadcast_message(&mut self, sender: u64, msg: String) -> (r: Result<
        Vec<Delivery>,
        RegistryError,
    >)
        requires
            old(self).wf(),
        ensures
            match r {
                Ok(dels) => old(self).has_user(sender) && final(self).wf() && broadcast_post(
                    *old(self),
                    *final(self),
                    sender,
                    msg@,
                    dels@,
                ),
                Err(e) => e == RegistryError::UserNotFound && !old(self).has_user(sender)
                    && *final(self) == *old(self),
            },
    {
        let mut i: usize = 0;
        while i < self.rooms.len()
            invariant
                *self == *old(self),
                old(self).wf(),
                i <= self.rooms@.len(),
                forall|k: int| 0 <= k < i ==> !(#[trigger] self.rooms@[k]).has_user(sender),
            decreases self.rooms@.len() - i,
        {
            let found = self.rooms[i].find_user(sender);
            if found.is_some() {
                proof {
                    self.lemma_user_room_unique(sender, i as int);
                }
                let ghost pre = *old(self);
                let ghost ri = i as int;
                let ghost pre_room = pre.rooms@[ri];
                let mut room = self.rooms.remove(i);
                room.history.push(msg.clone());
                proof {
                    assert(strings_view(room.history@) =~= strings_view(
                        pre_room.history@,
                    ).push(msg@));
                }
                let hist = prep_message_history(&room.history);
                let ghost pre_occs = pre_room.occupants@;
                let mut dels: Vec<Delivery> = Vec::new();
                let mut k: usize = 0;
                while k < room.occupants.len()
                    invariant
                        k <= room.occupants@.len(),
                        room.occupants@.len() == pre_occs.len(),
                        room.key == pre_room.key,
                        room.history@ == pre_room.history@.push(msg),
                        hist@ == joined(strings_view(pre_room.history@).push(msg@)),
                        forall|x: int| k <= x < pre_occs.len() ==> room.occupants@[x] == pre_occs[x],
                        forall|x: int|
                            0 <= x < k ==> (#[trigger] room.occupants@[x]).id == pre_occs[x].id
                                && room.occupants@[x].room == pre_occs[x].room
                                && room.occupants@[x].addr == pre_occs[x].addr
                                && room.occupants@[x].up_to_date == (
                            if pre_occs[x].id == sender {
                                pre_occs[x].up_to_date
                            } else {
                                true
                            }),
                        deliveries_view(dels@) == spec_deliveries(
                            pre_occs.subrange(0, k as int),
                            sender,
                            msg@,
                            hist@,
                        ),
                    decreases room.occupants@.len() - k,
                {
                    let ghost dels_pre = dels@;
                    let ghost occs_pre = room.occupants@;
                    if room.occupants[k].id != sender {
                        let utd = room.occupants[k].up_to_date;
                        let payload = if utd {
                            msg.clone()
                        } else {
                            hist.clone()
                        };
                        dels.push(Delivery { to: room.occupants[k].id, payload });
                        let mut occ = room.occupants.remove(k);
                        occ.up_to_date = true;
                        room.occupants.insert(k, occ);
                        proof {
                            assert(room.occupants@ =~= occs_pre.update(
                                k as int,
                                room.occupants@[k as int],
                            ));
                        }
                    }
                    proof {
                        let sub1 = pre_occs.subrange(0, k + 1 as int);
                        assert(sub1.drop_last() =~= pre_occs.subrange(0, k as int));
                        assert(sub1.last() == pre_occs[k as int]);
                        if pre_occs[k as int].id != sender {
                            assert(deliveries_view(dels@) =~= deliveries_view(dels_pre).push(
                                (dels@.last().to, dels@.last().payload@),
                            ));
                        } else {
                            assert(dels@ == dels_pre);
                        }
                        assert(deliveries_view(dels@) =~= spec_deliveries(
                            sub1,
                            sender,
                            msg@,
                            hist@,
                        ));
                    }
                    k = k + 1;
                }
                self.rooms.insert(i, room);
                proof {
                    assert(pre_occs.subrange(0, pre_occs.len() as int) =~= pre_occs);
                    assert(self.rooms@ =~= pre.rooms@.update(ri, self.rooms@[ri]));
                    let post_room = self.rooms@[ri];
                    lemma_same_ids_same_users(pre_room, post_room);
                    assert forall|a: int| 0 <= a < self.rooms@.len() implies (
                    #[trigger] self.rooms@[a]).wf() by {
                        if a != ri {
                            assert(self.rooms@[a] == pre.rooms@[a]);
                        } else {
                            assert(pre_room.wf());
                            assert forall|x: int, y: int|
                                0 <= x < y < post_room.occupants@.len() implies post_room.occupants@[x].id
                                != post_room.occupants@[y].id by {
                                assert(pre_room.occupants@[x].id != pre_room.occupants@[y].id);
                            }
                        }
                    }
                    assert forall|a: int, b: int, u2: u64|
                        0 <= a < self.rooms@.len() && 0 <= b < self.rooms@.len() && a != b && (
                        #[trigger] self.rooms@[a].has_user(u2)) implies !(
                    #[trigger] self.rooms@[b].has_user(u2)) by {
                        if a == ri {
                            assert(pre_room.has_user(u2));
                        } else {
                            assert(self.rooms@[a] == pre.rooms@[a]);
                        }
                        if b == ri {
                            assert(!pre.rooms@[b].has_user(u2));
                            assert(!post_room.has_user(u2));
                        } else {
                            assert(self.rooms@[b] == pre.rooms@[b]);
                        }
                    }
                    assert(broadcast_post(pre, *self, sender, msg@, dels@));
                }
                return Ok(dels);
            }
            i = i + 1;
        }
        Err(RegistryError::UserNotFound)
    }
}

} // verus!
