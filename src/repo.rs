//! Room repository primitives: removing rooms together with the memberships
//! that depend on them, while keeping the store's invariant.
use vstd::prelude::*;
use crate::db_models::{part, ChatRoomParticipants, QChatRooms, RoomKind};
use crate::seq_facts::{
    lemma_concat_contains, lemma_filter_all, lemma_filter_no_duplicates, lemma_filter_take_step,
    lemma_push_contains,
};
use crate::store::{
    has_room, has_shared_p2p, has_user, is_admin_in, is_member, pair_room, room_named,
    same_accounts, shares_p2p, ChatDb,
};

verus! {

/// A room survives unless its identity is among `dead`.
pub open spec fn keep_room(dead: Seq<i32>) -> spec_fn(QChatRooms) -> bool {
    |x: QChatRooms| !dead.contains(x.chat_room_id)
}

/// A membership survives unless its room is among `dead` or its user is `gone`.
pub open spec fn keep_member(dead: Seq<i32>, gone: Option<i32>) -> spec_fn(
    ChatRoomParticipants,
) -> bool {
    |m: ChatRoomParticipants| !dead.contains(m.chat_room_id) && gone != Some(m.user_id)
}

/// Whether `id` is among `v`.
pub(crate) fn contains_id(v: &Vec<i32>, id: i32) -> (r: bool)
    ensures
        r == v@.contains(id),
{
    let mut i: usize = 0;
    while i < v.len()
        invariant
            i <= v@.len(),
            forall|j: int| 0 <= j < i ==> #[trigger] v@[j] != id,
        decreases v@.len() - i,
    {
        if v[i] == id {
            assert(v@[i as int] == id);
            return true;
        }
        i = i + 1;
    }
    false
}

/// Removes, in place, the rooms whose identity is among `dead`.
pub(crate) fn drop_rooms(rooms: &mut Vec<QChatRooms>, dead: &Vec<i32>)
    ensures
        final(rooms)@ == old(rooms)@.filter(keep_room(dead@)),
{
    let ghost s = old(rooms)@;
    let ghost p = keep_room(dead@);
    let mut i: usize = 0;
    let ghost mut j: int = 0;
    while i < rooms.len()
        invariant
            p == keep_room(dead@),
            0 <= j <= s.len(),
            i == s.take(j).filter(p).len(),
            rooms@ == s.take(j).filter(p) + s.skip(j),
        decreases rooms@.len() - i,
    {
        proof {
            lemma_filter_take_step(s, p, j);
            assert(rooms@[i as int] == s[j]);
            assert(s.skip(j) =~= seq![s[j]] + s.skip(j + 1));
        }
        let ghost before = rooms@;
        let id = rooms[i].chat_room_id;
        let gone = contains_id(dead, id);
        proof {
            assert(s[j].chat_room_id == id);
            assert(p(s[j]) == !dead@.contains(id));
        }
        if gone {
            let _ = rooms.remove(i);
            proof {
                assert(rooms@ =~= s.take(j + 1).filter(p) + s.skip(j + 1));
            }
        } else {
            i = i + 1;
            proof {
                assert(s.take(j + 1).filter(p) =~= s.take(j).filter(p).push(s[j]));
                assert(rooms@ =~= s.take(j + 1).filter(p) + s.skip(j + 1));
            }
        }
        proof {
            j = j + 1;
        }
    }
    proof {
        assert(s.take(j) =~= s);
        assert(s.skip(j) =~= Seq::<QChatRooms>::empty());
        assert(rooms@ =~= s.filter(p));
    }
}

/// The memberships that survive removing the rooms among `dead` and every
/// membership of the user `gone`.
pub(crate) fn kept_members(ms: &Vec<ChatRoomParticipants>, dead: &Vec<i32>, gone: Option<i32>) -> (r:
    Vec<ChatRoomParticipants>)
    ensures
        r@ == ms@.filter(keep_member(dead@, gone)),
{
    let ghost p = keep_member(dead@, gone);
    let mut out: Vec<ChatRoomParticipants> = Vec::new();
    let mut i: usize = 0;
    while i < ms.len()
        invariant
            p == keep_member(dead@, gone),
            i <= ms@.len(),
            out@ == ms@.take(i as int).filter(p),
        decreases ms@.len() - i,
    {
        proof {
            lemma_filter_take_step(ms@, p, i as int);
        }
        let m = ms[i];
        let in_dead = contains_id(dead, m.chat_room_id);
        let is_gone = match gone {
            Some(g) => g == m.user_id,
            None => false,
        };
        proof {
            assert(m == ms@[i as int]);
            assert(p(m) == (!dead@.contains(m.chat_room_id) && gone != Some(m.user_id)));
        }
        if !in_dead && !is_gone {
            out.push(m);
        }
        i = i + 1;
    }
    proof {
        assert(ms@.take(ms@.len() as int) =~= ms@);
    }
    out
}

/// Every membership of `id` survives, so the room keeps its members, its
/// admin and its pair.
pub proof fn lemma_room_untouched(ms: Seq<ChatRoomParticipants>, p: spec_fn(ChatRoomParticipants) -> bool, id: i32)
    requires
        forall|m: ChatRoomParticipants| #[trigger] ms.contains(m) && m.chat_room_id == id ==> p(m),
    ensures
        forall|u: i32| #[trigger] is_member(ms.filter(p), id, u) == is_member(ms, id, u),
        forall|u: i32| #[trigger] is_admin_in(ms.filter(p), id, u) == is_admin_in(ms, id, u),
        forall|a: i32, b: i32| #[trigger] pair_room(ms.filter(p), id, a, b) == pair_room(ms, id, a, b),
{
    lemma_filter_all(ms, p);
    assert forall|a: i32, b: i32| #[trigger] pair_room(ms.filter(p), id, a, b) == pair_room(ms, id, a, b) by {
        let f = ms.filter(p);
        if pair_room(ms, id, a, b) {
            assert(ms.contains(part(id, a, false)));
            assert(ms.contains(part(id, b, false)));
            assert forall|m: ChatRoomParticipants| #[trigger] f.contains(m) && m.chat_room_id == id implies (m.user_id == a || m.user_id == b) && !m.is_admin by {
                assert(ms.contains(m));
            }
        }
        if pair_room(f, id, a, b) {
            assert forall|m: ChatRoomParticipants| #[trigger] ms.contains(m) && m.chat_room_id == id implies (m.user_id == a || m.user_id == b) && !m.is_admin by {
                assert(f.contains(m));
            }
        }
    }
    assert forall|u: i32| #[trigger] is_member(ms.filter(p), id, u) == is_member(ms, id, u) by {
        assert(ms.contains(part(id, u, false)) ==> p(part(id, u, false)));
        assert(ms.contains(part(id, u, true)) ==> p(part(id, u, true)));
    }
    assert forall|u: i32| #[trigger] is_admin_in(ms.filter(p), id, u) == is_admin_in(ms, id, u) by {
        assert(ms.contains(part(id, u, true)) ==> p(part(id, u, true)));
    }
}

/// The user `gone` administers no group that survives removing the rooms
/// among `dead`, and belongs to no p2p room that survives it.
pub open spec fn cascade_allowed(db: &ChatDb, dead: Seq<i32>, gone: Option<i32>) -> bool {
    forall|x: QChatRooms, g: i32|
        #![trigger db.rooms@.contains(x), is_member(db.members@, x.chat_room_id, g)]
        db.rooms@.contains(x) && !dead.contains(x.chat_room_id) && gone == Some(g) ==> if x.room_kind
            == RoomKind::Group {
            !is_admin_in(db.members@, x.chat_room_id, g)
        } else {
            !is_member(db.members@, x.chat_room_id, g)
        }
}

impl ChatDb {
    /// Removes the rooms among `dead`, their memberships, and every
    /// membership of the user `gone`. The invariant is kept where `gone`
    /// administers no surviving group and belongs to no surviving p2p room.
    pub(crate) fn drop_rooms_cascade(&mut self, dead: &Vec<i32>, gone: Option<i32>)
        requires
            old(self).wf(),
            cascade_allowed(&*old(self), dead@, gone),
        ensures
            final(self).wf(),
            final(self).rooms@ == old(self).rooms@.filter(keep_room(dead@)),
            final(self).members@ == old(self).members@.filter(keep_member(dead@, gone)),
            final(self).users@ == old(self).users@,
            final(self).profiles@ == old(self).profiles@,
            final(self).solana_wallets@ == old(self).solana_wallets@,
            final(self).tron_wallets@ == old(self).tron_wallets@,
            final(self).next_user_id == old(self).next_user_id,
            final(self).next_room_id == old(self).next_room_id,
            final(self).next_wallet_id == old(self).next_wallet_id,
    {
        let ghost pre = *self;
        drop_rooms(&mut self.rooms, dead);
        let kept = kept_members(&self.members, dead, gone);
        self.members = kept;
        proof {
            lemma_cascade_wf(&pre, self, dead@, gone);
        }
    }
}

/// The state after a cascade satisfies the invariant.
proof fn lemma_cascade_wf(pre: &ChatDb, post: &ChatDb, dead: Seq<i32>, gone: Option<i32>)
    requires
        pre.wf(),
        cascade_allowed(pre, dead, gone),
        post.rooms@ == pre.rooms@.filter(keep_room(dead)),
        post.members@ == pre.members@.filter(keep_member(dead, gone)),
        post.users@ == pre.users@,
        post.profiles@ == pre.profiles@,
        post.solana_wallets@ == pre.solana_wallets@,
        post.tron_wallets@ == pre.tron_wallets@,
        post.next_user_id == pre.next_user_id,
        post.next_room_id == pre.next_room_id,
        post.next_wallet_id == pre.next_wallet_id,
    ensures
        post.wf(),
{
    let rp = keep_room(dead);
    let mp = keep_member(dead, gone);
    let ms = pre.members@;
    let rs = pre.rooms@;
    lemma_filter_all(rs, rp);
    lemma_filter_all(ms, mp);
    lemma_filter_no_duplicates(rs, rp);
    lemma_filter_no_duplicates(ms, mp);
    let nms = post.members@;
    let nrs = post.rooms@;
    assert forall|m: ChatRoomParticipants| #[trigger] nms.contains(m) implies has_room(nrs, m.chat_room_id) by {
        assert(ms.contains(m));
        let x = choose|x: QChatRooms| rs.contains(x) && x.chat_room_id == m.chat_room_id;
        assert(nrs.contains(x));
    }
    assert forall|x: QChatRooms| #[trigger] nrs.contains(x) && x.room_kind == RoomKind::P2P implies forall|m: ChatRoomParticipants| #[trigger] ms.contains(m) && m.chat_room_id == x.chat_room_id ==> mp(m) by {
        assert(rs.contains(x));
        assert forall|m: ChatRoomParticipants| #[trigger] ms.contains(m) && m.chat_room_id == x.chat_room_id implies mp(m) by {
            if let Some(g) = gone {
                if m.user_id == g {
                    assert(m == part(x.chat_room_id, g, m.is_admin));
                    assert(is_member(ms, x.chat_room_id, g));
                }
            }
        }
    }
    assert forall|x: QChatRooms| #[trigger] nrs.contains(x) && x.room_kind == RoomKind::Group implies exists|u: i32| is_admin_in(nms, x.chat_room_id, u) by {
        assert(rs.contains(x));
        let u = choose|u: i32| is_admin_in(ms, x.chat_room_id, u);
        if let Some(g) = gone {
            assert(is_member(ms, x.chat_room_id, u));
            if u == g {
                assert(is_admin_in(ms, x.chat_room_id, g));
            }
        }
        assert(mp(part(x.chat_room_id, u, true)));
        assert(is_admin_in(nms, x.chat_room_id, u));
    }
    assert forall|x: QChatRooms| #[trigger] nrs.contains(x) && x.room_kind == RoomKind::P2P implies exists|a: i32, b: i32| pair_room(nms, x.chat_room_id, a, b) by {
        lemma_room_untouched(ms, mp, x.chat_room_id);
        let (a, b) = choose|a: i32, b: i32| pair_room(ms, x.chat_room_id, a, b);
        assert(pair_room(nms, x.chat_room_id, a, b));
    }
    assert forall|x: QChatRooms, y: QChatRooms, a: i32, b: i32|
        nrs.contains(x) && nrs.contains(y) && x.room_kind == RoomKind::P2P && y.room_kind == RoomKind::P2P
            && #[trigger] pair_room(nms, x.chat_room_id, a, b) && #[trigger] pair_room(nms, y.chat_room_id, a, b)
        implies x == y by {
        lemma_room_untouched(ms, mp, x.chat_room_id);
        lemma_room_untouched(ms, mp, y.chat_room_id);
        assert(rs.contains(x) && rs.contains(y));
        assert(pair_room(ms, x.chat_room_id, a, b));
        assert(pair_room(ms, y.chat_room_id, a, b));
    }
}

/// Two membership sequences that hold the same memberships of room `r`
/// agree on its members, its admin and its pair.
pub proof fn lemma_same_room_members(s: Seq<ChatRoomParticipants>, t: Seq<ChatRoomParticipants>, r: i32)
    requires
        forall|m: ChatRoomParticipants| m.chat_room_id == r ==> (#[trigger] s.contains(m) <==> t.contains(m)),
    ensures
        forall|u: i32| #[trigger] is_member(s, r, u) == is_member(t, r, u),
        forall|u: i32| #[trigger] is_admin_in(s, r, u) == is_admin_in(t, r, u),
        forall|a: i32, b: i32| #[trigger] pair_room(s, r, a, b) == pair_room(t, r, a, b),
{
    assert forall|a: i32, b: i32| #[trigger] pair_room(s, r, a, b) == pair_room(t, r, a, b) by {
        if pair_room(s, r, a, b) {
            assert(t.contains(part(r, a, false)));
            assert(t.contains(part(r, b, false)));
            assert forall|m: ChatRoomParticipants| #[trigger] t.contains(m) && m.chat_room_id == r implies (m.user_id == a || m.user_id == b) && !m.is_admin by {
                assert(s.contains(m));
            }
        }
        if pair_room(t, r, a, b) {
            assert(s.contains(part(r, a, false)));
            assert(s.contains(part(r, b, false)));
            assert forall|m: ChatRoomParticipants| #[trigger] s.contains(m) && m.chat_room_id == r implies (m.user_id == a || m.user_id == b) && !m.is_admin by {
                assert(t.contains(m));
            }
        }
    }
    assert forall|u: i32| #[trigger] is_member(s, r, u) == is_member(t, r, u) by {
        assert(s.contains(part(r, u, false)) == t.contains(part(r, u, false)));
        assert(s.contains(part(r, u, true)) == t.contains(part(r, u, true)));
    }
    assert forall|u: i32| #[trigger] is_admin_in(s, r, u) == is_admin_in(t, r, u) by {
        assert(s.contains(part(r, u, true)) == t.contains(part(r, u, true)));
    }
}

/// The memberships `added` of a new room are well formed: all of that room,
/// of stored users, each user once, at most one admin; a group gets an
/// admin, a p2p room a pair of users that share no p2p room yet.
pub open spec fn new_room_members_ok(pre: &ChatDb, room: QChatRooms, added: Seq<ChatRoomParticipants>) -> bool {
    let id = room.chat_room_id;
    &&& added.no_duplicates()
    &&& forall|m: ChatRoomParticipants| #[trigger] added.contains(m) ==> m.chat_room_id == id && has_user(pre.users@, m.user_id)
    &&& forall|u: i32| !(#[trigger] added.contains(part(id, u, false)) && added.contains(part(id, u, true)))
    &&& forall|u1: i32, u2: i32| #[trigger] added.contains(part(id, u1, true)) && #[trigger] added.contains(part(id, u2, true)) ==> u1 == u2
    &&& room.room_kind == RoomKind::Group ==> exists|u: i32| #[trigger] added.contains(part(id, u, true))
    &&& room.room_kind == RoomKind::P2P ==> exists|a: i32, b: i32| #[trigger] pair_room(added, id, a, b)
    &&& room.room_kind == RoomKind::P2P ==> forall|a: i32, b: i32| #[trigger] pair_room(added, id, a, b) ==> !has_shared_p2p(pre, a, b)
}

/// Adding a room with a fresh identity and an unused name, together with
/// its memberships, keeps the invariant.
pub proof fn lemma_add_room_wf(pre: &ChatDb, post: &ChatDb, room: QChatRooms, added: Seq<ChatRoomParticipants>)
    requires
        pre.wf(),
        room.chat_room_id == pre.next_room_id,
        pre.next_room_id < i32::MAX,
        !room_named(pre.rooms@, room.room_name@),
        post.rooms@ == pre.rooms@.push(room),
        post.members@ == pre.members@ + added,
        post.next_room_id == pre.next_room_id + 1,
        same_accounts(pre, post),
        new_room_members_ok(pre, room, added),
    ensures
        post.wf(),
{
    let id = room.chat_room_id;
    let ms = pre.members@;
    let nms = post.members@;
    let rs = pre.rooms@;
    let nrs = post.rooms@;
    lemma_push_contains(rs, room);
    lemma_concat_contains(ms, added);
    assert forall|m: ChatRoomParticipants| #[trigger] ms.contains(m) implies m.chat_room_id != id by {
        let x = choose|x: QChatRooms| rs.contains(x) && x.chat_room_id == m.chat_room_id;
    }
    assert(!rs.contains(room));
    assert forall|m: ChatRoomParticipants| ms.contains(m) implies !#[trigger] added.contains(m) by {}
    assert forall|x: QChatRooms, y: QChatRooms| #[trigger] nrs.contains(x) && #[trigger] nrs.contains(y) implies {
        &&& x.chat_room_id == y.chat_room_id ==> x == y
        &&& x.room_name@ == y.room_name@ ==> x == y
    } by {
        if x != room && y == room {
            assert(rs.contains(x));
        } else if x == room && y != room {
            assert(rs.contains(y));
        }
    }
    assert forall|m: ChatRoomParticipants| #[trigger] nms.contains(m) implies has_room(nrs, m.chat_room_id) && has_user(post.users@, m.user_id) by {
        if ms.contains(m) {
            let x = choose|x: QChatRooms| rs.contains(x) && x.chat_room_id == m.chat_room_id;
            assert(nrs.contains(x));
        } else {
            assert(nrs.contains(room));
        }
    }
    assert forall|r: i32, u: i32| !(#[trigger] nms.contains(part(r, u, false)) && #[trigger] nms.contains(part(r, u, true))) by {
        if r != id {
            assert(!added.contains(part(r, u, false)));
            assert(!added.contains(part(r, u, true)));
        } else {
            assert(!ms.contains(part(r, u, false)));
            assert(!ms.contains(part(r, u, true)));
        }
    }
    assert forall|r: i32, u1: i32, u2: i32| #[trigger] nms.contains(part(r, u1, true)) && #[trigger] nms.contains(part(r, u2, true)) implies u1 == u2 by {
        if r != id {
            assert(!added.contains(part(r, u1, true)));
            assert(!added.contains(part(r, u2, true)));
        } else {
            assert(!ms.contains(part(r, u1, true)));
            assert(!ms.contains(part(r, u2, true)));
        }
    }
    assert forall|x: QChatRooms| #[trigger] nrs.contains(x) && x.chat_room_id != id implies
        forall|m: ChatRoomParticipants| m.chat_room_id == x.chat_room_id ==> (#[trigger] nms.contains(m) <==> ms.contains(m)) by {
        assert forall|m: ChatRoomParticipants| m.chat_room_id == x.chat_room_id implies (#[trigger] nms.contains(m) <==> ms.contains(m)) by {
            if added.contains(m) {}
        }
    }
    assert forall|m: ChatRoomParticipants| m.chat_room_id == id implies (#[trigger] nms.contains(m) <==> added.contains(m)) by {
        if ms.contains(m) {}
    }
    lemma_same_room_members(nms, added, id);
    assert forall|x: QChatRooms| #[trigger] nrs.contains(x) && x.room_kind == RoomKind::Group implies exists|u: i32| is_admin_in(nms, x.chat_room_id, u) by {
        if x == room {
            let u = choose|u: i32| #[trigger] added.contains(part(id, u, true));
            assert(is_admin_in(nms, id, u));
        } else {
            assert(rs.contains(x));
            lemma_same_room_members(nms, ms, x.chat_room_id);
            let u = choose|u: i32| is_admin_in(ms, x.chat_room_id, u);
            assert(is_admin_in(nms, x.chat_room_id, u));
        }
    }
    assert forall|x: QChatRooms| #[trigger] nrs.contains(x) && x.room_kind == RoomKind::P2P implies exists|a: i32, b: i32| pair_room(nms, x.chat_room_id, a, b) by {
        if x == room {
            let (a, b) = choose|a: i32, b: i32| #[trigger] pair_room(added, id, a, b);
            assert(pair_room(nms, id, a, b));
        } else {
            assert(rs.contains(x));
            lemma_same_room_members(nms, ms, x.chat_room_id);
            let (a, b) = choose|a: i32, b: i32| pair_room(ms, x.chat_room_id, a, b);
            assert(pair_room(nms, x.chat_room_id, a, b));
        }
    }
    assert forall|x: QChatRooms, y: QChatRooms, a: i32, b: i32|
        nrs.contains(x) && nrs.contains(y) && x.room_kind == RoomKind::P2P && y.room_kind == RoomKind::P2P
            && #[trigger] pair_room(nms, x.chat_room_id, a, b) && #[trigger] pair_room(nms, y.chat_room_id, a, b)
        implies x == y by {
        if x != room && y != room {
            assert(rs.contains(x) && rs.contains(y));
            lemma_same_room_members(nms, ms, x.chat_room_id);
            lemma_same_room_members(nms, ms, y.chat_room_id);
            assert(pair_room(ms, x.chat_room_id, a, b));
            assert(pair_room(ms, y.chat_room_id, a, b));
        } else if x == room && y != room {
            assert(rs.contains(y));
            lemma_same_room_members(nms, ms, y.chat_room_id);
            assert(pair_room(added, id, a, b));
            assert(pair_room(ms, y.chat_room_id, a, b));
            assert(shares_p2p(pre, y, a, b));
        } else if x != room && y == room {
            assert(rs.contains(x));
            lemma_same_room_members(nms, ms, x.chat_room_id);
            assert(pair_room(added, id, a, b));
            assert(pair_room(ms, x.chat_room_id, a, b));
            assert(shares_p2p(pre, x, a, b));
        }
    }
}

} // verus!
