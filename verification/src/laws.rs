//! The laws of the chat core, proved over the transition relations that the
//! registry operations establish.

use vstd::prelude::*;

use crate::messages::broadcast_post;
use crate::messages::deliveries_view;
use crate::messages::spec_deliveries;
use crate::messages::Delivery;
use crate::registry::create_post;
use crate::registry::RoomRegistry;
use crate::rooms::joined;
use crate::rooms::move_post;
use crate::user::User;
use crate::util::key_of;

verus! {

/// No pair of a broadcast fan-out names the sender.
proof fn lemma_deliveries_no_sender(occs: Seq<User>, sender: u64, msg: Seq<char>, hist: Seq<char>)
    ensures
        forall|k: int|
            0 <= k < spec_deliveries(occs, sender, msg, hist).len() ==> (#[trigger] spec_deliveries(
                occs,
                sender,
                msg,
                hist,
            )[k]).0 != sender,
    decreases occs.len(),
{
    let sd = spec_deliveries(occs, sender, msg, hist);
    if occs.len() > 0 {
        lemma_deliveries_no_sender(occs.drop_last(), sender, msg, hist);
        let init = spec_deliveries(occs.drop_last(), sender, msg, hist);
        assert forall|k: int| 0 <= k < sd.len() implies (#[trigger] sd[k]).0 != sender by {
            if k < init.len() {
                assert(sd[k] == init[k]);
            }
        }
    }
}

/// Every pair of a broadcast fan-out names some occupant other than the sender.
proof fn lemma_deliveries_from_occupants(
    occs: Seq<User>,
    sender: u64,
    msg: Seq<char>,
    hist: Seq<char>,
)
    ensures
        forall|k: int|
            0 <= k < spec_deliveries(occs, sender, msg, hist).len() ==> exists|j: int|
                0 <= j < occs.len() && (#[trigger] occs[j]).id == (#[trigger] spec_deliveries(
                    occs,
                    sender,
                    msg,
                    hist,
                )[k]).0,
    decreases occs.len(),
{
    let sd = spec_deliveries(occs, sender, msg, hist);
    if occs.len() > 0 {
        let front = occs.drop_last();
        lemma_deliveries_from_occupants(front, sender, msg, hist);
        let init = spec_deliveries(front, sender, msg, hist);
        assert forall|k: int| 0 <= k < sd.len() implies exists|j: int|
            0 <= j < occs.len() && (#[trigger] occs[j]).id == (#[trigger] sd[k]).0 by {
            if k < init.len() {
                let j = choose|j: int| 0 <= j < front.len() && (#[trigger] front[j]).id
                    == init[k].0;
                assert(occs[j].id == sd[k].0);
            } else {
                let j = occs.len() - 1;
                assert(occs[j].id == sd[k].0);
            }
        }
    }
}

/// In a room whose occupant identities are unique, the occupant at `j` (not
/// the sender) is delivered exactly one payload: the broadcast if caught up,
/// the joined history if not.
proof fn lemma_delivery_payload(
    occs: Seq<User>,
    sender: u64,
    msg: Seq<char>,
    hist: Seq<char>,
    j: int,
)
    requires
        forall|x: int, y: int| 0 <= x < y < occs.len() ==> occs[x].id != occs[y].id,
        0 <= j < occs.len(),
        occs[j].id != sender,
    ensures
        exists|k: int|
            0 <= k < spec_deliveries(occs, sender, msg, hist).len() && (#[trigger] spec_deliveries(
                occs,
                sender,
                msg,
                hist,
            )[k]) == (occs[j].id, if occs[j].up_to_date {
                msg
            } else {
                hist
            }),
        forall|k: int|
            0 <= k < spec_deliveries(occs, sender, msg, hist).len() && (#[trigger] spec_deliveries(
                occs,
                sender,
                msg,
                hist,
            )[k]).0 == occs[j].id ==> spec_deliveries(occs, sender, msg, hist)[k].1 == (
            if occs[j].up_to_date {
                msg
            } else {
                hist
            }),
    decreases occs.len(),
{
    let sd = spec_deliveries(occs, sender, msg, hist);
    let front = occs.drop_last();
    let init = spec_deliveries(front, sender, msg, hist);
    let pay = if occs[j].up_to_date {
        msg
    } else {
        hist
    };
    if j == occs.len() - 1 {
        // the pair pushed for the last occupant is the one delivery
        assert(sd[sd.len() - 1] == (occs[j].id, pay));
        lemma_deliveries_from_occupants(front, sender, msg, hist);
        assert forall|k: int| 0 <= k < sd.len() && (#[trigger] sd[k]).0 == occs[j].id implies sd[k].1
            == pay by {
            if k < init.len() {
                let x = choose|x: int| 0 <= x < front.len() && (#[trigger] front[x]).id
                    == init[k].0;
                assert(occs[x].id != occs[j].id);
            }
        }
    } else {
        lemma_delivery_payload(front, sender, msg, hist, j);
        assert(front[j] == occs[j]);
        let kw = choose|k: int| 0 <= k < init.len() && (#[trigger] init[k]) == (front[j].id, pay);
        assert(sd[kw] == (occs[j].id, pay));
        assert forall|k: int| 0 <= k < sd.len() && (#[trigger] sd[k]).0 == occs[j].id implies sd[k].1
            == pay by {
            if k >= init.len() {
                // the pair pushed last is for the last occupant, whose
                // identity differs from the one at j
                assert(occs[occs.len() - 1].id != occs[j].id);
                assert(sd[k].0 == occs[occs.len() - 1].id);
            }
        }
    }
}

/// Room isolation: a chat payload broadcast by a sender in one room is never
/// delivered to a user who occupies a different room.
pub proof fn lemma_room_isolation(
    pre: RoomRegistry,
    post: RoomRegistry,
    sender: u64,
    msg: Seq<char>,
    dels: Seq<Delivery>,
    other: u64,
)
    requires
        pre.wf(),
        broadcast_post(pre, post, sender, msg, dels),
        pre.has_user(other),
        pre.user_room_idx(other) != pre.user_room_idx(sender),
    ensures
        forall|k: int| 0 <= k < dels.len() ==> (#[trigger] dels[k]).to != other,
{
    let ri = pre.user_room_idx(sender);
    let occs = pre.rooms@[ri].occupants@;
    let hist = joined(pre.rooms@[ri].history_view().push(msg));
    pre.lemma_user_record(sender);
    pre.lemma_user_record(other);
    lemma_deliveries_from_occupants(occs, sender, msg, hist);
    let dv = deliveries_view(dels);
    assert forall|k: int| 0 <= k < dels.len() implies (#[trigger] dels[k]).to != other by {
        assert(dv[k] == (dels[k].to, dels[k].payload@));
        let j = choose|j: int| 0 <= j < occs.len() && (#[trigger] occs[j]).id == dv[k].0;
        if dels[k].to == other {
            assert(pre.rooms@[ri].has_user(other));
            pre.lemma_user_room_unique(other, ri);
        }
    }
}

/// Self-exclusion: a broadcast sender never receives its own chat payload.
pub proof fn lemma_self_exclusion(
    pre: RoomRegistry,
    post: RoomRegistry,
    sender: u64,
    msg: Seq<char>,
    dels: Seq<Delivery>,
)
    requires
        broadcast_post(pre, post, sender, msg, dels),
    ensures
        forall|k: int| 0 <= k < dels.len() ==> (#[trigger] dels[k]).to != sender,
{
    let ri = pre.user_room_idx(sender);
    let occs = pre.rooms@[ri].occupants@;
    let hist = joined(pre.rooms@[ri].history_view().push(msg));
    lemma_deliveries_no_sender(occs, sender, msg, hist);
    let dv = deliveries_view(dels);
    assert forall|k: int| 0 <= k < dels.len() implies (#[trigger] dels[k]).to != sender by {
        assert(dv[k] == (dels[k].to, dels[k].payload@));
    }
}

/// Catch-up correctness: a user in the sender's room who is not caught up
/// receives, on the next broadcast there, the room's full joined history
/// (ending in the triggering payload) rather than the payload alone; on the
/// broadcast after that, the user receives only the new payload.
pub proof fn lemma_catch_up_correctness(
    s0: RoomRegistry,
    s1: RoomRegistry,
    s2: RoomRegistry,
    sender1: u64,
    m1: Seq<char>,
    dels1: Seq<Delivery>,
    sender2: u64,
    m2: Seq<char>,
    dels2: Seq<Delivery>,
    uid: u64,
)
    requires
        s0.wf(),
        broadcast_post(s0, s1, sender1, m1, dels1),
        broadcast_post(s1, s2, sender2, m2, dels2),
        s0.has_user(uid),
        uid != sender1,
        uid != sender2,
        s0.user_room_idx(uid) == s0.user_room_idx(sender1),
        s1.user_room_idx(sender2) == s0.user_room_idx(sender1),
        !s0.spec_user(uid).up_to_date,
    ensures
        exists|k: int| 0 <= k < dels1.len() && (#[trigger] dels1[k]).to == uid,
        forall|k: int|
            0 <= k < dels1.len() && (#[trigger] dels1[k]).to == uid ==> dels1[k].payload@
                == joined(s0.user_room(sender1).history_view().push(m1)),
        exists|k: int| 0 <= k < dels2.len() && (#[trigger] dels2[k]).to == uid,
        forall|k: int|
            0 <= k < dels2.len() && (#[trigger] dels2[k]).to == uid ==> dels2[k].payload@ == m2,
{
    let ri = s0.user_room_idx(sender1);
    let room0 = s0.rooms@[ri];
    let occs0 = room0.occupants@;
    let hist1 = joined(room0.history_view().push(m1));
    s0.lemma_user_record(uid);
    s0.lemma_user_record(sender1);
    let j = room0.user_idx(uid);
    assert(occs0[j] == s0.spec_user(uid));
    assert(room0.wf());
    lemma_delivery_payload(occs0, sender1, m1, hist1, j);
    let dv1 = deliveries_view(dels1);
    assert forall|k: int| 0 <= k < dels1.len() && (#[trigger] dels1[k]).to == uid implies dels1[k].payload@
        == hist1 by {
        assert(dv1[k] == (dels1[k].to, dels1[k].payload@));
    }
    assert(exists|k: int| 0 <= k < dels1.len() && (#[trigger] dels1[k]).to == uid) by {
        let k = choose|k: int|
            0 <= k < spec_deliveries(occs0, sender1, m1, hist1).len() && (
            #[trigger] spec_deliveries(occs0, sender1, m1, hist1)[k]) == (occs0[j].id, hist1);
        assert(dv1[k] == (dels1[k].to, dels1[k].payload@));
        assert(dels1[k].to == uid);
    }
    // after the first broadcast the user is caught up
    let room1 = s1.rooms@[ri];
    let occs1 = room1.occupants@;
    assert(occs1[j].id == uid && occs1[j].up_to_date);
    assert forall|x: int, y: int| 0 <= x < y < occs1.len() implies occs1[x].id != occs1[y].id by {
        assert(occs0[x].id != occs0[y].id);
    }
    let hist2 = joined(room1.history_view().push(m2));
    lemma_delivery_payload(occs1, sender2, m2, hist2, j);
    let dv2 = deliveries_view(dels2);
    assert forall|k: int| 0 <= k < dels2.len() && (#[trigger] dels2[k]).to == uid implies dels2[k].payload@
        == m2 by {
        assert(dv2[k] == (dels2[k].to, dels2[k].payload@));
    }
    assert(exists|k: int| 0 <= k < dels2.len() && (#[trigger] dels2[k]).to == uid) by {
        let k = choose|k: int|
            0 <= k < spec_deliveries(occs1, sender2, m2, hist2).len() && (
            #[trigger] spec_deliveries(occs1, sender2, m2, hist2)[k]) == (occs1[j].id, m2);
        assert(dv2[k] == (dels2[k].to, dels2[k].payload@));
        assert(dels2[k].to == uid);
    }
}

/// Migration atomicity: after a move, the user stands in exactly one room's
/// occupant set — the destination — and its recorded room key is the
/// destination's key.
pub proof fn lemma_migration_atomicity(
    pre: RoomRegistry,
    post: RoomRegistry,
    uid: u64,
    dest: u64,
    h: Seq<char>,
)
    requires
        pre.wf(),
        move_post(pre, post, uid, dest, h),
    ensures
        post.has_user(uid),
        post.user_room_idx(uid) == pre.room_idx(dest),
        post.user_room(uid).key == dest,
        post.spec_user(uid).room == dest,
        post.spec_user(uid).up_to_date,
        forall|i: int|
            0 <= i < post.rooms@.len() && i != pre.room_idx(dest) ==> !(
            #[trigger] post.rooms@[i]).has_user(uid),
{
    let si = pre.user_room_idx(uid);
    let di = pre.room_idx(dest);
    let src = pre.rooms@[si];
    let moved = pre.spec_user(uid).moved_to(dest);
    pre.lemma_user_record(uid);
    assert(0 <= di < pre.rooms@.len() && pre.rooms@[di].key == dest);
    let post_occs = post.rooms@[di].occupants@;
    let last = post_occs.len() - 1;
    assert(post_occs[last] == moved);
    assert(post.rooms@[di].has_user(uid));
    assert forall|i: int|
        0 <= i < post.rooms@.len() && i != di implies !(#[trigger] post.rooms@[i]).has_user(
        uid,
    ) by {
        if i == si {
            if post.rooms@[i].has_user(uid) {
                let k = post.rooms@[i].user_idx(uid);
                let base = src.occupants@.remove(src.user_idx(uid));
                assert(post.rooms@[i].occupants@ == base);
                if k < src.user_idx(uid) {
                    assert(src.occupants@[k].id == uid);
                    src.lemma_user_idx_unique(uid, k);
                } else {
                    assert(src.occupants@[k + 1].id == uid);
                    src.lemma_user_idx_unique(uid, k + 1);
                }
            }
        } else {
            assert(post.rooms@[i] == pre.rooms@[i]);
            if pre.rooms@[i].has_user(uid) {
                pre.lemma_user_room_unique(uid, i);
            }
        }
    }
    assert(post.user_room_idx(uid) == di) by {
        let c = post.user_room_idx(uid);
        assert(post.rooms@[c].has_user(uid));
    }
    assert(post.spec_user(uid) == moved) by {
        let k = post.rooms@[di].user_idx(uid);
        assert(0 <= k < post_occs.len() && post_occs[k].id == uid);
        if k < last {
            let base = if si == di {
                src.occupants@.remove(src.user_idx(uid))
            } else {
                pre.rooms@[di].occupants@
            };
            assert(post_occs[k] == base[k]);
            if si == di {
                if k < src.user_idx(uid) {
                    src.lemma_user_idx_unique(uid, k);
                } else {
                    src.lemma_user_idx_unique(uid, k + 1);
                }
            } else {
                assert(pre.rooms@[di].has_user(uid));
                pre.lemma_user_room_unique(uid, di);
            }
        }
    }
}

/// History append order: two broadcasts into the same room append their
/// payloads in send order, and each replay of that room's history is the
/// previous replay followed by the newly appended payload and a newline.
pub proof fn lemma_history_append_order(
    s0: RoomRegistry,
    s1: RoomRegistry,
    s2: RoomRegistry,
    sender1: u64,
    m1: Seq<char>,
    dels1: Seq<Delivery>,
    sender2: u64,
    m2: Seq<char>,
    dels2: Seq<Delivery>,
)
    requires
        broadcast_post(s0, s1, sender1, m1, dels1),
        broadcast_post(s1, s2, sender2, m2, dels2),
        s1.user_room_idx(sender2) == s0.user_room_idx(sender1),
    ensures
        s2.rooms@[s0.user_room_idx(sender1)].history_view() == s0.user_room(
            sender1,
        ).history_view().push(m1).push(m2),
        joined(s0.user_room(sender1).history_view().push(m1)) == joined(
            s0.user_room(sender1).history_view(),
        ) + m1 + seq!['\n'],
        joined(s2.rooms@[s0.user_room_idx(sender1)].history_view()) == joined(
            s0.user_room(sender1).history_view().push(m1),
        ) + m2 + seq!['\n'],
{
    let ri = s0.user_room_idx(sender1);
    let h0 = s0.rooms@[ri].history_view();
    let h1 = s1.rooms@[ri].history_view();
    let h2 = s2.rooms@[ri].history_view();
    assert(h1 == h0.push(m1));
    assert(h2 == h1.push(m2));
    assert(h0.push(m1).drop_last() =~= h0);
    assert(h1.push(m2).drop_last() =~= h1);
}

/// Idempotent room creation: deriving a key from the same room name twice
/// yields the same key, and the second creation changes nothing — the room is
/// created at most once.
pub proof fn lemma_idempotent_room_creation(
    s0: RoomRegistry,
    s1: RoomRegistry,
    s2: RoomRegistry,
    name: Seq<char>,
    i1: int,
    i2: int,
)
    requires
        s0.wf(),
        create_post(s0, s1, key_of(name), i1),
        create_post(s1, s2, key_of(name), i2),
    ensures
        s1.rooms@[i1].key == key_of(name),
        s2.rooms@[i2].key == key_of(name),
        s2 == s1,
        i2 == i1,
        s1.rooms@.len() <= s0.rooms@.len() + 1,
{
    lemma_create_preserves_wf(s0, s1, key_of(name), i1);
    assert(s1.has_room_key(key_of(name)));
    assert(s2 == s1);
    s1.lemma_room_idx_unique(key_of(name), i1);
}

/// Creating a room preserves registry consistency.
proof fn lemma_create_preserves_wf(pre: RoomRegistry, post: RoomRegistry, key: u64, i: int)
    requires
        pre.wf(),
        create_post(pre, post, key, i),
    ensures
        post.wf(),
        post.has_room_key(key),
{
    if pre.has_room_key(key) {
        pre.lemma_room_idx_unique(key, pre.room_idx(key));
    } else {
        let n = pre.rooms@.len() as int;
        assert forall|a: int| 0 <= a < n implies post.rooms@[a] == pre.rooms@[a] by {
            assert(post.rooms@.subrange(0, n)[a] == post.rooms@[a]);
        }
        assert forall|a: int, b: int| 0 <= a < b < post.rooms@.len() implies (
        #[trigger] post.rooms@[a]).key != (#[trigger] post.rooms@[b]).key by {
            if b == n {
                assert(post.rooms@[a] == pre.rooms@[a]);
            }
        }
        assert forall|a: int| 0 <= a < post.rooms@.len() implies (#[trigger] post.rooms@[a]).wf()
            by {
            if a < n {
                assert(post.rooms@[a] == pre.rooms@[a]);
            }
        }
        assert forall|a: int, b: int, uid: u64|
            0 <= a < post.rooms@.len() && 0 <= b < post.rooms@.len() && a != b && (
            #[trigger] post.rooms@[a].has_user(uid)) implies !(#[trigger] post.rooms@[b].has_user(
            uid,
        )) by {
            if a < n {
                assert(post.rooms@[a] == pre.rooms@[a]);
            }
            if b < n {
                assert(post.rooms@[b] == pre.rooms@[b]);
            }
        }
    }
}

} // verus!
