//! Laws of the engine, proved over the contracts of its operations.
use vstd::prelude::*;
use crate::accounts::user_deleted;
use crate::groups::{group_deleted, participant_removed};
use crate::lookup::{room_with_name, user_with_name};
use crate::naming::{decimal, hash_of};
use crate::db_models::{part, ChatRoomParticipants, DbError, QChatRooms, RoomKind};
use crate::p2p::{lemma_shared_pair, lemma_shared_symmetric, p2p_created};
use crate::repo::{keep_room};
use crate::seq_facts::{lemma_concat_contains, lemma_filter_all, lemma_push_contains};
use crate::store::{has_room_of_kind, has_shared_p2p, is_admin_in, is_member, pair_room, room_named, shares_p2p, user_named, ChatDb};

verus! {

/// Once a p2p room of `a` and `b` has been created, it is the one room
/// that the two share, its members are exactly `a` and `b`, neither of them
/// admin, and creating another for the same pair, in either order, fails
/// with `AlreadyExists` and changes nothing.
pub proof fn law_p2p_pair_unique(
    pre: &ChatDb,
    mid: &ChatDb,
    post: &ChatDb,
    a: i32,
    b: i32,
    c: i32,
    d: i32,
    key1: Seq<char>,
    key2: Seq<char>,
    name1: Seq<char>,
    name2: Seq<char>,
    r1: Result<QChatRooms, DbError>,
    r2: Result<QChatRooms, DbError>,
)
    requires
        pre.wf(),
        p2p_created(pre, mid, a, b, key1, name1, r1),
        r1 is Ok,
        mid.wf(),
        (c == a && d == b) || (c == b && d == a),
        p2p_created(mid, post, c, d, key2, name2, r2),
    ensures
        has_shared_p2p(mid, a, b),
        forall|x: QChatRooms| #[trigger] shares_p2p(mid, x, a, b) ==> x.chat_room_id == r1->Ok_0.chat_room_id,
        pair_room(mid.members@, r1->Ok_0.chat_room_id, a, b),
        r2 == Err::<QChatRooms, DbError>(DbError::AlreadyExists),
        *post == *mid,
{
    let x = r1->Ok_0;
    let id = x.chat_room_id;
    let row = mid.rooms@.last();
    let added = seq![part(id, a, false), part(id, b, false)];
    lemma_concat_contains(pre.members@, added);
    assert(added.contains(part(id, a, false)) && added.contains(part(id, b, false))) by {
        assert(added[0] == part(id, a, false));
        assert(added[1] == part(id, b, false));
    }
    assert(mid.rooms@ == mid.rooms@.drop_last().push(row));
    lemma_push_contains(pre.rooms@, row);
    assert(mid.rooms@.contains(row));
    assert(shares_p2p(mid, row, a, b));
    lemma_shared_pair(mid, row, a, b);
    assert forall|y: QChatRooms| #[trigger] shares_p2p(mid, y, a, b) implies y.chat_room_id == id by {
        lemma_shared_pair(mid, y, a, b);
    }
    lemma_shared_symmetric(mid, a, b);
    assert(has_user_both(mid, a, b)) by {
        assert(is_member(mid.members@, id, a) && is_member(mid.members@, id, b));
        assert(mid.members@.contains(part(id, a, false)));
        assert(mid.members@.contains(part(id, b, false)));
    }
}

/// Both users belong to stored users.
spec fn has_user_both(db: &ChatDb, a: i32, b: i32) -> bool {
    crate::store::has_user(db.users@, a) && crate::store::has_user(db.users@, b)
}

/// In a well-formed store every group has exactly one admin.
pub proof fn law_group_has_one_admin(db: &ChatDb, x: QChatRooms)
    requires
        db.wf(),
        db.rooms@.contains(x),
        x.room_kind == RoomKind::Group,
    ensures
        exists|u: i32|
            #![trigger is_admin_in(db.members@, x.chat_room_id, u)]
            is_admin_in(db.members@, x.chat_room_id, u) && forall|v: i32|
                #[trigger] is_admin_in(db.members@, x.chat_room_id, v) ==> v == u,
{
    let u = choose|u: i32| is_admin_in(db.members@, x.chat_room_id, u);
    assert forall|v: i32| #[trigger] is_admin_in(db.members@, x.chat_room_id, v) implies v == u by {}
}

/// Removing a member from a group on behalf of someone who is neither its
/// admin nor that member fails with `PermissionDenied` and changes nothing.
pub proof fn law_remove_needs_admin_or_self(
    pre: &ChatDb,
    post: &ChatDb,
    room: i32,
    user: i32,
    remover: i32,
    r: Result<bool, DbError>,
)
    requires
        pre.wf(),
        has_room_of_kind(pre.rooms@, room, RoomKind::Group),
        !is_admin_in(pre.members@, room, remover),
        remover != user,
        participant_removed(pre, post, room, user, remover, r),
    ensures
        r == Err::<bool, DbError>(DbError::PermissionDenied),
        *post == *pre,
{
}

/// After a user is removed, no membership names them, and every room that
/// is left still has a member other than them.
pub proof fn law_teardown_leaves_no_trace(pre: &ChatDb, post: &ChatDb, name: Seq<char>, r: Result<bool, DbError>)
    requires
        pre.wf(),
        post.wf(),
        user_named(pre.users@, name),
        user_deleted(pre, post, name, r),
    ensures
        ({
            let u = user_with_name(pre.users@, name).user_id;
            &&& forall|m: ChatRoomParticipants| #[trigger] post.members@.contains(m) ==> m.user_id != u
            &&& forall|x: QChatRooms| #[trigger] post.rooms@.contains(x) ==> exists|v: i32| v != u && #[trigger] is_member(post.members@, x.chat_room_id, v)
        }),
{
    let u = user_with_name(pre.users@, name).user_id;
    let p = |m: ChatRoomParticipants| !crate::accounts::tears_down(pre, u, m.chat_room_id) && m.user_id != u;
    lemma_filter_all(pre.members@, p);
    assert(post.members@ == pre.members@.filter(p));
    assert forall|x: QChatRooms| #[trigger] post.rooms@.contains(x) implies exists|v: i32| v != u && #[trigger] is_member(post.members@, x.chat_room_id, v) by {
        let ms = post.members@;
        if x.room_kind == RoomKind::Group {
            let v = choose|v: i32| is_admin_in(ms, x.chat_room_id, v);
            assert(ms.contains(part(x.chat_room_id, v, true)));
            assert(is_member(ms, x.chat_room_id, v));
        } else {
            let (v, w) = choose|v: i32, w: i32| pair_room(ms, x.chat_room_id, v, w);
            assert(ms.contains(part(x.chat_room_id, v, false)));
            assert(ms.contains(part(x.chat_room_id, w, false)));
            assert(is_member(ms, x.chat_room_id, v));
            assert(is_member(ms, x.chat_room_id, w));
        }
    }
}

/// Deleting the same group twice: the second call fails with `NotFound` and
/// changes nothing.
pub proof fn law_delete_group_twice(
    pre: &ChatDb,
    mid: &ChatDb,
    post: &ChatDb,
    name: Seq<char>,
    remover: Seq<char>,
    r1: Result<bool, DbError>,
    r2: Result<bool, DbError>,
)
    requires
        pre.wf(),
        group_deleted(pre, mid, name, remover, r1),
        r1 is Ok,
        group_deleted(mid, post, name, remover, r2),
    ensures
        r2 == Err::<bool, DbError>(DbError::NotFound),
        *post == *mid,
{
    let x = room_with_name(pre.rooms@, name);
    let id = x.chat_room_id;
    lemma_filter_all(pre.rooms@, keep_room(seq![id]));
    assert(seq![id].contains(id)) by {
        assert(seq![id][0] == id);
    }
    assert forall|y: QChatRooms| #[trigger] mid.rooms@.contains(y) implies y.room_name@ != name by {
        assert(pre.rooms@.contains(y));
        if y.room_name@ == name {
            assert(pre.rooms@.contains(x));
            assert(y == x);
        }
    }
    assert(!room_named(mid.rooms@, name));
}

/// The same law for the public entry point, whose room names are generated
/// from the clock: once it has created a p2p room of `a` and `b`, that room
/// is the one they share, with exactly the two of them as non-admin members,
/// and a second call for the pair, in either order, fails with
/// `AlreadyExists` and changes nothing.
pub proof fn law_generated_p2p_pair_unique(
    pre: &ChatDb,
    mid: &ChatDb,
    post: &ChatDb,
    a: i32,
    b: i32,
    c: i32,
    d: i32,
    key1: Seq<char>,
    key2: Seq<char>,
    r1: Result<QChatRooms, DbError>,
    r2: Result<QChatRooms, DbError>,
)
    requires
        pre.wf(),
        exists|t: Seq<char>| p2p_created(pre, mid, a, b, key1, decimal(hash_of(t + "Private Room"@) as nat), r1),
        r1 is Ok,
        mid.wf(),
        (c == a && d == b) || (c == b && d == a),
        exists|t: Seq<char>| p2p_created(mid, post, c, d, key2, decimal(hash_of(t + "Private Room"@) as nat), r2),
    ensures
        has_shared_p2p(mid, a, b),
        forall|x: QChatRooms| #[trigger] shares_p2p(mid, x, a, b) ==> x.chat_room_id == r1->Ok_0.chat_room_id,
        pair_room(mid.members@, r1->Ok_0.chat_room_id, a, b),
        r2 == Err::<QChatRooms, DbError>(DbError::AlreadyExists),
        *post == *mid,
{
    let t1 = choose|t: Seq<char>| p2p_created(pre, mid, a, b, key1, decimal(hash_of(t + "Private Room"@) as nat), r1);
    let t2 = choose|t: Seq<char>| p2p_created(mid, post, c, d, key2, decimal(hash_of(t + "Private Room"@) as nat), r2);
    law_p2p_pair_unique(
        pre,
        mid,
        post,
        a,
        b,
        c,
        d,
        key1,
        key2,
        decimal(hash_of(t1 + "Private Room"@) as nat),
        decimal(hash_of(t2 + "Private Room"@) as nat),
        r1,
        r2,
    );
}

} // verus!
