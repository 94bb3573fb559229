//! Group rooms: created with exactly one admin, the owner; edited, deleted
//! and populated only by that admin.
use vstd::prelude::*;
use crate::lookup::{copy_bytes, copy_room, find_admin, find_room_by_id, find_room_by_name, find_user_by_id, find_user_by_name, membership_of, room_with_name, same_room, user_with_name};
use crate::db_models::{
    part, ChatRoomParticipants, ChatRooms, DbError, QChatRooms, QUsers, RoomKind, UpdatableChatRooms,
};
use crate::repo::{contains_id, keep_member, keep_room, lemma_add_room_wf, lemma_same_room_members, new_room_members_ok};
use crate::seq_facts::{lemma_concat_contains, lemma_push_contains};
use crate::store::{has_user, is_admin_in, is_member, room_named, same_accounts, user_named, ChatDb};

verus! {

/// The usernames `names` as character sequences.
pub open spec fn name_views(names: Seq<String>) -> Seq<Seq<char>> {
    names.map_values(|s: String| s@)
}

/// Every name of `names` is the username of a stored user.
pub open spec fn all_named(users: Seq<QUsers>, names: Seq<Seq<char>>) -> bool {
    forall|i: int| 0 <= i < names.len() ==> user_named(users, #[trigger] names[i])
}

/// The identities of the users called `names`, in order of first
/// appearance, each once, leaving out `owner`.
pub open spec fn added_member_ids(users: Seq<QUsers>, names: Seq<Seq<char>>, owner: i32) -> Seq<i32>
    decreases names.len(),
{
    if names.len() == 0 {
        Seq::empty()
    } else {
        let prev = added_member_ids(users, names.drop_last(), owner);
        let u = user_with_name(users, names.last()).user_id;
        if u == owner || prev.contains(u) {
            prev
        } else {
            prev.push(u)
        }
    }
}

/// The non-admin memberships of the users `ids` in room `id`.
pub open spec fn member_rows(id: i32, ids: Seq<i32>) -> Seq<ChatRoomParticipants> {
    ids.map_values(|u: i32| part(id, u, false))
}

/// The identities of `added_member_ids` are distinct, are not the owner, and
/// belong to stored users.
proof fn lemma_added_ids(users: Seq<QUsers>, names: Seq<Seq<char>>, owner: i32)
    requires
        all_named(users, names),
    ensures
        added_member_ids(users, names, owner).no_duplicates(),
        !added_member_ids(users, names, owner).contains(owner),
        forall|u: i32| #[trigger] added_member_ids(users, names, owner).contains(u) ==> has_user(users, u),
    decreases names.len(),
{
    if names.len() > 0 {
        let rest = names.drop_last();
        assert(all_named(users, rest)) by {
            assert forall|i: int| 0 <= i < rest.len() implies user_named(users, #[trigger] rest[i]) by {
                assert(rest[i] == names[i]);
            }
        }
        lemma_added_ids(users, rest, owner);
        let prev = added_member_ids(users, rest, owner);
        let x = user_with_name(users, names.last());
        assert(user_named(users, names[names.len() - 1]));
        assert(users.contains(x));
        lemma_push_contains(prev, x.user_id);
    }
}

/// The rows of `member_rows` are distinct, and are exactly the non-admin
/// memberships of the users `ids` in room `id`.
proof fn lemma_member_rows(id: i32, ids: Seq<i32>)
    requires
        ids.no_duplicates(),
    ensures
        member_rows(id, ids).no_duplicates(),
        forall|m: ChatRoomParticipants| #[trigger] member_rows(id, ids).contains(m) <==> (m.chat_room_id == id && !m.is_admin && ids.contains(m.user_id)),
{
    let rows = member_rows(id, ids);
    assert forall|m: ChatRoomParticipants| #[trigger] rows.contains(m) <==> (m.chat_room_id == id && !m.is_admin && ids.contains(m.user_id)) by {
        if rows.contains(m) {
            let i = choose|i: int| 0 <= i < rows.len() && rows[i] == m;
            assert(ids[i] == m.user_id);
        }
        if m.chat_room_id == id && !m.is_admin && ids.contains(m.user_id) {
            let i = choose|i: int| 0 <= i < ids.len() && ids[i] == m.user_id;
            assert(rows[i] == m);
        }
    }
    assert forall|i: int, j: int| 0 <= i < rows.len() && 0 <= j < rows.len() && i != j implies rows[i] != rows[j] by {
        assert(ids[i] != ids[j]);
    }
}

/// Why creating the group `name`, owned by the user called `owner`, with
/// the users called `names`, fails, checked in this order, or `None`.
pub open spec fn group_refusal(db: &ChatDb, name: Seq<char>, owner: Seq<char>, names: Seq<Seq<char>>) -> Option<DbError> {
    if !user_named(db.users@, owner) {
        Some(DbError::NotFound)
    } else if room_named(db.rooms@, name) {
        Some(DbError::Conflict)
    } else if db.next_room_id == i32::MAX {
        Some(DbError::Internal)
    } else if !all_named(db.users@, names) {
        Some(DbError::NotFound)
    } else {
        None
    }
}

/// A non-admin membership of `user` in `room`, or the admin one.
fn membership(room: i32, user: i32, admin: bool) -> (r: ChatRoomParticipants)
    ensures
        r == part(room, user, admin),
{
    ChatRoomParticipants { chat_room_id: room, user_id: user, is_admin: admin }
}

/// Creates the group room described by `_chat_room_info`, owned (as its one
/// admin) by the user called `group_owner_username`, with the users called
/// `group_members` as non-admin members: each once, the owner left out.
pub fn add_new_group_chat_room(
    _conn: &mut ChatDb,
    _chat_room_info: &ChatRooms,
    group_owner_username: &String,
    group_members: Vec<String>,
) -> (r: Result<QChatRooms, DbError>)
    requires
        old(_conn).wf(),
    ensures
        final(_conn).wf(),
        ({
            let pre = &*old(_conn);
            let post = &*final(_conn);
            let names = name_views(group_members@);
            match group_refusal(pre, _chat_room_info.room_name@, group_owner_username@, names) {
                Some(e) => r == Err::<QChatRooms, DbError>(e) && *post == *pre,
                None => match r {
                    Ok(x) => {
                        let owner = user_with_name(pre.users@, group_owner_username@).user_id;
                        &&& x.chat_room_id == pre.next_room_id
                        &&& x.room_name@ == _chat_room_info.room_name@
                        &&& x.room_description@ == _chat_room_info.room_description@
                        &&& x.chat_room_pubkey@ == _chat_room_info.chat_room_pubkey@
                        &&& x.room_kind == RoomKind::Group
                        &&& post.rooms@.len() == pre.rooms@.len() + 1
                        &&& post.rooms@.drop_last() == pre.rooms@
                        &&& same_room(post.rooms@.last(), x)
                        &&& post.members@ == pre.members@ + seq![part(x.chat_room_id, owner, true)]
                            + member_rows(x.chat_room_id, added_member_ids(pre.users@, names, owner))
                        &&& post.next_room_id == pre.next_room_id + 1
                        &&& same_accounts(pre, post)
                    },
                    Err(_) => false,
                },
            }
        }),
{
    let ghost names = name_views(group_members@);
    let ko = match find_user_by_name(&_conn.users, group_owner_username) {
        Some(k) => k,
        None => return Err(DbError::NotFound),
    };
    let owner = _conn.users[ko].user_id;
    proof {
        let us = _conn.users@;
        assert(us.contains(us[ko as int]));
        assert(us[ko as int] == user_with_name(us, group_owner_username@));
    }
    if find_room_by_name(&_conn.rooms, &_chat_room_info.room_name).is_some() {
        return Err(DbError::Conflict);
    }
    if _conn.next_room_id == i32::MAX {
        return Err(DbError::Internal);
    }
    let mut ids: Vec<i32> = Vec::new();
    let mut i: usize = 0;
    while i < group_members.len()
        invariant
            _conn.wf(),
            *_conn == *old(_conn),
            !room_named(_conn.rooms@, _chat_room_info.room_name@),
            _conn.next_room_id != i32::MAX,
            names == name_views(group_members@),
            i <= group_members@.len(),
            ids@ == added_member_ids(_conn.users@, names.take(i as int), owner),
            all_named(_conn.users@, names.take(i as int)),
        decreases group_members@.len() - i,
    {
        let k = match find_user_by_name(&_conn.users, &group_members[i]) {
            Some(k) => k,
            None => {
                proof {
                    assert(names[i as int] == group_members@[i as int]@);
                }
                return Err(DbError::NotFound);
            },
        };
        let u = _conn.users[k].user_id;
        proof {
            let us = _conn.users@;
            let t = names.take(i as int + 1);
            assert(names[i as int] == group_members@[i as int]@);
            assert(us.contains(us[k as int]));
            assert(us[k as int] == user_with_name(us, names[i as int]));
            assert(t.drop_last() =~= names.take(i as int));
            assert(t.last() == names[i as int]);
            assert forall|j: int| 0 <= j < t.len() implies user_named(us, #[trigger] t[j]) by {
                if j < i {
                    assert(t[j] == names.take(i as int)[j]);
                }
            }
        }
        if u != owner && !contains_id(&ids, u) {
            ids.push(u);
        }
        i = i + 1;
    }
    proof {
        assert(names.take(names.len() as int) =~= names);
    }
    let ghost pre = *_conn;
    let id = _conn.next_room_id;
    let row = QChatRooms {
        chat_room_id: id,
        room_name: _chat_room_info.room_name.clone(),
        room_description: _chat_room_info.room_description.clone(),
        chat_room_pubkey: copy_bytes(&_chat_room_info.chat_room_pubkey),
        room_kind: RoomKind::Group,
    };
    let out = copy_room(&row);
    let ghost head = seq![part(id, owner, true)];
    let ghost added = head + member_rows(id, ids@);
    proof {
        lemma_added_ids(pre.users@, names, owner);
        lemma_member_rows(id, ids@);
        lemma_push_contains(Seq::<ChatRoomParticipants>::empty(), part(id, owner, true));
        assert(Seq::<ChatRoomParticipants>::empty().push(part(id, owner, true)) =~= head);
        lemma_concat_contains(head, member_rows(id, ids@));
        assert(added.contains(part(id, owner, true)));
        assert forall|m: ChatRoomParticipants| #[trigger] added.contains(m) implies m.chat_room_id == id && has_user(pre.users@, m.user_id) by {
            if head.contains(m) {
                assert(pre.users@.contains(pre.users@[ko as int]));
            }
        }
        assert(new_room_members_ok(&pre, row, added));
    }
    _conn.rooms.push(row);
    _conn.members.push(membership(id, owner, true));
    let mut j: usize = 0;
    while j < ids.len()
        invariant
            j <= ids@.len(),
            _conn.members@ == pre.members@ + head + member_rows(id, ids@.take(j as int)),
            _conn.rooms@ == pre.rooms@.push(row),
            same_accounts(&pre, _conn),
            _conn.next_room_id == id,
        decreases ids@.len() - j,
    {
        _conn.members.push(membership(id, ids[j], false));
        proof {
            assert(member_rows(id, ids@.take(j as int + 1)) =~= member_rows(id, ids@.take(j as int)).push(part(id, ids@[j as int], false)));
        }
        j = j + 1;
    }
    _conn.next_room_id = id + 1;
    proof {
        assert(ids@.take(ids@.len() as int) =~= ids@);
        assert(pre.members@ + head + member_rows(id, ids@) =~= pre.members@ + added);
        assert(_conn.rooms@.drop_last() =~= pre.rooms@);
        lemma_add_room_wf(&pre, _conn, row, added);
    }
    Ok(out)
}

/// Why deleting the group called `name` on behalf of the user called
/// `remover` fails, checked in this order, or `None`.
pub open spec fn delete_group_refusal(db: &ChatDb, name: Seq<char>, remover: Seq<char>) -> Option<DbError> {
    let x = room_with_name(db.rooms@, name);
    let u = user_with_name(db.users@, remover).user_id;
    if !user_named(db.users@, remover) || !room_named(db.rooms@, name) || x.room_kind != RoomKind::Group {
        Some(DbError::NotFound)
    } else if !is_admin_in(db.members@, x.chat_room_id, u) {
        Some(DbError::PermissionDenied)
    } else {
        None
    }
}

/// The outcome of deleting the group called `name` on behalf of the user
/// called `remover`: on a refusal the store is unchanged; else the room and
/// all of its memberships are gone.
pub open spec fn group_deleted(pre: &ChatDb, post: &ChatDb, name: Seq<char>, remover: Seq<char>, r: Result<bool, DbError>) -> bool {
    match delete_group_refusal(pre, name, remover) {
        Some(e) => r == Err::<bool, DbError>(e) && *post == *pre,
        None => {
            let id = room_with_name(pre.rooms@, name).chat_room_id;
            &&& r == Ok::<bool, DbError>(true)
            &&& post.rooms@ == pre.rooms@.filter(keep_room(seq![id]))
            &&& post.members@ == pre.members@.filter(keep_member(seq![id], None))
            &&& post.next_room_id == pre.next_room_id
            &&& same_accounts(pre, post)
        },
    }
}

/// Deletes the group called `_chat_room_name`, with all of its memberships,
/// when the user called `remover_username` is its admin.
pub fn delete_group_chat_room(_conn: &mut ChatDb, _chat_room_name: &String, remover_username: &String) -> (r: Result<bool, DbError>)
    requires
        old(_conn).wf(),
    ensures
        final(_conn).wf(),
        group_deleted(&*old(_conn), &*final(_conn), _chat_room_name@, remover_username@, r),
{
    let ku = match find_user_by_name(&_conn.users, remover_username) {
        Some(k) => k,
        None => return Err(DbError::NotFound),
    };
    let kr = match find_room_by_name(&_conn.rooms, _chat_room_name) {
        Some(k) => k,
        None => return Err(DbError::NotFound),
    };
    let u = _conn.users[ku].user_id;
    let id = _conn.rooms[kr].chat_room_id;
    proof {
        let us = _conn.users@;
        let rs = _conn.rooms@;
        assert(us.contains(us[ku as int]));
        assert(us[ku as int] == user_with_name(us, remover_username@));
        assert(rs.contains(rs[kr as int]));
        assert(rs[kr as int] == room_with_name(rs, _chat_room_name@));
    }
    if _conn.rooms[kr].room_kind != RoomKind::Group {
        return Err(DbError::NotFound);
    }
    match membership_of(&_conn.members, id, u) {
        Some(true) => {},
        _ => {
            proof {
                if is_admin_in(_conn.members@, id, u) {
                    assert(_conn.members@.contains(part(id, u, true)));
                }
            }
            return Err(DbError::PermissionDenied);
        },
    }
    let mut dead: Vec<i32> = Vec::new();
    dead.push(id);
    proof {
        assert(dead@ =~= seq![id]);
    }
    _conn.drop_rooms_cascade(&dead, None);
    Ok(true)
}

/// The admin of the group with identity `_chat_room_id`.
pub fn get_group_owner_by_id(_conn: &ChatDb, _chat_room_id: i32) -> (r: Result<i32, DbError>)
    requires
        _conn.wf(),
    ensures
        match r {
            Ok(u) => crate::store::has_room_of_kind(_conn.rooms@, _chat_room_id, RoomKind::Group)
                && is_admin_in(_conn.members@, _chat_room_id, u),
            Err(e) => e == DbError::NotFound && !crate::store::has_room_of_kind(_conn.rooms@, _chat_room_id, RoomKind::Group),
        },
{
    let k = match find_room_by_id(&_conn.rooms, _chat_room_id) {
        Some(k) => k,
        None => return Err(DbError::NotFound),
    };
    proof {
        let rs = _conn.rooms@;
        assert(rs.contains(rs[k as int]));
    }
    if _conn.rooms[k].room_kind != RoomKind::Group {
        return Err(DbError::NotFound);
    }
    match find_admin(&_conn.members, _chat_room_id) {
        Some(u) => Ok(u),
        None => Err(DbError::NotFound),
    }
}

/// Why adding the user `user` to the room `room` on behalf of the user
/// called `adder` fails, checked in this order, or `None`.
pub open spec fn add_participant_refusal(db: &ChatDb, room: i32, user: i32, adder: Seq<char>) -> Option<DbError> {
    let a = user_with_name(db.users@, adder).user_id;
    if !user_named(db.users@, adder) || !crate::store::has_room_of_kind(db.rooms@, room, RoomKind::Group) {
        Some(DbError::NotFound)
    } else if !is_admin_in(db.members@, room, a) {
        Some(DbError::PermissionDenied)
    } else if !has_user(db.users@, user) {
        Some(DbError::NotFound)
    } else if is_member(db.members@, room, user) {
        Some(DbError::AlreadyExists)
    } else {
        None
    }
}

/// The outcome of adding the user `user` to the room `room` on behalf of
/// the user called `adder`: on a refusal the store is unchanged; else one
/// non-admin membership is appended.
pub open spec fn participant_added(pre: &ChatDb, post: &ChatDb, room: i32, user: i32, adder: Seq<char>, r: Result<ChatRoomParticipants, DbError>) -> bool {
    match add_participant_refusal(pre, room, user, adder) {
        Some(e) => r == Err::<ChatRoomParticipants, DbError>(e) && *post == *pre,
        None => {
            &&& r == Ok::<ChatRoomParticipants, DbError>(part(room, user, false))
            &&& post.members@ == pre.members@.push(part(room, user, false))
            &&& post.rooms@ == pre.rooms@
            &&& post.next_room_id == pre.next_room_id
            &&& same_accounts(pre, post)
        },
    }
}

/// Adds the user of `_adding_user` to its group room as a non-admin member,
/// when the user called `_adder_username` is the group's admin.
pub fn add_participant_to_group_chat_room(_conn: &mut ChatDb, _adding_user: &ChatRoomParticipants, _adder_username: &String) -> (r: Result<ChatRoomParticipants, DbError>)
    requires
        old(_conn).wf(),
    ensures
        final(_conn).wf(),
        participant_added(&*old(_conn), &*final(_conn), _adding_user.chat_room_id, _adding_user.user_id, _adder_username@, r),
{
    let room = _adding_user.chat_room_id;
    let user = _adding_user.user_id;
    let ka = match find_user_by_name(&_conn.users, _adder_username) {
        Some(k) => k,
        None => return Err(DbError::NotFound),
    };
    let a = _conn.users[ka].user_id;
    proof {
        let us = _conn.users@;
        assert(us.contains(us[ka as int]));
        assert(us[ka as int] == user_with_name(us, _adder_username@));
    }
    let kr = match find_room_by_id(&_conn.rooms, room) {
        Some(k) => k,
        None => {
            proof {
                if crate::store::has_room_of_kind(_conn.rooms@, room, RoomKind::Group) {
                    lemma_group_at(_conn, room);
                }
            }
            return Err(DbError::NotFound);
        },
    };
    proof {
        let rs = _conn.rooms@;
        assert(rs.contains(rs[kr as int]));
    }
    if _conn.rooms[kr].room_kind != RoomKind::Group {
        proof {
            if crate::store::has_room_of_kind(_conn.rooms@, room, RoomKind::Group) {
                lemma_group_at(_conn, room);
            }
        }
        return Err(DbError::NotFound);
    }
    match membership_of(&_conn.members, room, a) {
        Some(true) => {},
        _ => {
            proof {
                if is_admin_in(_conn.members@, room, a) {
                    assert(_conn.members@.contains(part(room, a, true)));
                }
            }
            return Err(DbError::PermissionDenied);
        },
    }
    if find_user_by_id(&_conn.users, user).is_none() {
        return Err(DbError::NotFound);
    }
    if membership_of(&_conn.members, room, user).is_some() {
        return Err(DbError::AlreadyExists);
    }
    let ghost pre = *_conn;
    let m = membership(room, user, false);
    _conn.members.push(m);
    proof {
        lemma_add_member_wf(&pre, _conn, room, user);
    }
    Ok(m)
}

/// Appending a non-admin membership of a stored user who is not yet in the
/// stored group `room` keeps the invariant.
proof fn lemma_add_member_wf(pre: &ChatDb, post: &ChatDb, room: i32, user: i32)
    requires
        pre.wf(),
        crate::store::has_room_of_kind(pre.rooms@, room, RoomKind::Group),
        has_user(pre.users@, user),
        !is_member(pre.members@, room, user),
        post.members@ == pre.members@.push(part(room, user, false)),
        post.rooms@ == pre.rooms@,
        post.next_room_id == pre.next_room_id,
        same_accounts(pre, post),
    ensures
        post.wf(),
{
    let ms = pre.members@;
    let nms = post.members@;
    let m = part(room, user, false);
    lemma_push_contains(ms, m);
    lemma_group_at(pre, room);
    assert(crate::store::has_room(pre.rooms@, room));
    assert forall|x: QChatRooms| #[trigger] pre.rooms@.contains(x) && x.chat_room_id != room implies
        forall|n: ChatRoomParticipants| n.chat_room_id == x.chat_room_id ==> (#[trigger] nms.contains(n) <==> ms.contains(n)) by {}
    assert forall|x: QChatRooms| #[trigger] pre.rooms@.contains(x) && x.room_kind == RoomKind::P2P implies x.chat_room_id != room by {}
    assert forall|x: QChatRooms| #[trigger] post.rooms@.contains(x) && x.room_kind == RoomKind::Group implies exists|u: i32| is_admin_in(nms, x.chat_room_id, u) by {
        let u = choose|u: i32| is_admin_in(ms, x.chat_room_id, u);
        assert(is_admin_in(nms, x.chat_room_id, u));
    }
    assert forall|x: QChatRooms| #[trigger] post.rooms@.contains(x) && x.room_kind == RoomKind::P2P implies exists|a: i32, b: i32| crate::store::pair_room(nms, x.chat_room_id, a, b) by {
        lemma_same_room_members(nms, ms, x.chat_room_id);
        let (a, b) = choose|a: i32, b: i32| crate::store::pair_room(ms, x.chat_room_id, a, b);
        assert(crate::store::pair_room(nms, x.chat_room_id, a, b));
    }
    assert forall|x: QChatRooms, y: QChatRooms, a: i32, b: i32|
        post.rooms@.contains(x) && post.rooms@.contains(y) && x.room_kind == RoomKind::P2P && y.room_kind == RoomKind::P2P
            && #[trigger] crate::store::pair_room(nms, x.chat_room_id, a, b) && #[trigger] crate::store::pair_room(nms, y.chat_room_id, a, b)
        implies x == y by {
        lemma_same_room_members(nms, ms, x.chat_room_id);
        lemma_same_room_members(nms, ms, y.chat_room_id);
        assert(crate::store::pair_room(ms, x.chat_room_id, a, b));
        assert(crate::store::pair_room(ms, y.chat_room_id, a, b));
    }
    assert forall|r: i32, u: i32| !(#[trigger] nms.contains(part(r, u, false)) && #[trigger] nms.contains(part(r, u, true))) by {
        if r == room && u == user {
            assert(!ms.contains(part(r, u, true)));
        }
    }
}

/// The position of `m` among the memberships `ms`, where it is there.
pub open spec fn member_index(ms: Seq<ChatRoomParticipants>, m: ChatRoomParticipants) -> int {
    choose|i: int| 0 <= i < ms.len() && ms[i] == m
}

/// Position of the membership `m`.
fn find_membership(ms: &Vec<ChatRoomParticipants>, m: ChatRoomParticipants) -> (r: Option<usize>)
    ensures
        match r {
            Some(k) => k < ms@.len() && ms@[k as int] == m,
            None => !ms@.contains(m),
        },
{
    let mut i: usize = 0;
    while i < ms.len()
        invariant
            i <= ms@.len(),
            forall|j: int| 0 <= j < i ==> #[trigger] ms@[j] != m,
        decreases ms@.len() - i,
    {
        if ms[i] == m {
            return Some(i);
        }
        i = i + 1;
    }
    None
}

/// Why removing the user `user` from the room `room` on behalf of the user
/// `remover` fails, checked in this order, or `None`.
pub open spec fn remove_participant_refusal(db: &ChatDb, room: i32, user: i32, remover: i32) -> Option<DbError> {
    if !crate::store::has_room_of_kind(db.rooms@, room, RoomKind::Group) {
        Some(DbError::NotFound)
    } else if !is_admin_in(db.members@, room, remover) && remover != user {
        Some(DbError::PermissionDenied)
    } else if !is_member(db.members@, room, user) {
        Some(DbError::NotFound)
    } else {
        None
    }
}

/// The outcome of removing the user `user` from the room `room` on behalf
/// of the user `remover`: on a refusal the store is unchanged; the admin
/// leaving deletes the group with all of its memberships; anyone else
/// leaving loses only that membership.
pub open spec fn participant_removed(pre: &ChatDb, post: &ChatDb, room: i32, user: i32, remover: i32, r: Result<bool, DbError>) -> bool {
    match remove_participant_refusal(pre, room, user, remover) {
        Some(e) => r == Err::<bool, DbError>(e) && *post == *pre,
        None => {
            &&& r == Ok::<bool, DbError>(true)
            &&& post.next_room_id == pre.next_room_id
            &&& same_accounts(pre, post)
            &&& if is_admin_in(pre.members@, room, user) {
                &&& post.rooms@ == pre.rooms@.filter(keep_room(seq![room]))
                &&& post.members@ == pre.members@.filter(keep_member(seq![room], None))
            } else {
                &&& post.rooms@ == pre.rooms@
                &&& post.members@ == pre.members@.remove(member_index(pre.members@, part(room, user, false)))
            }
        },
    }
}

/// Removes the user of `_removing_user` from its group room, on behalf of the
/// user `remover_user_id`, who must be the group's admin or that user. The
/// admin leaving deletes the group.
pub fn del_participant_from_group_chat_room(_conn: &mut ChatDb, _removing_user: &ChatRoomParticipants, remover_user_id: i32) -> (r: Result<bool, DbError>)
    requires
        old(_conn).wf(),
    ensures
        final(_conn).wf(),
        participant_removed(&*old(_conn), &*final(_conn), _removing_user.chat_room_id, _removing_user.user_id, remover_user_id, r),
{
    let room = _removing_user.chat_room_id;
    let user = _removing_user.user_id;
    let kr = match find_room_by_id(&_conn.rooms, room) {
        Some(k) => k,
        None => {
            proof {
                if crate::store::has_room_of_kind(_conn.rooms@, room, RoomKind::Group) {
                    lemma_group_at(_conn, room);
                }
            }
            return Err(DbError::NotFound);
        },
    };
    proof {
        let rs = _conn.rooms@;
        assert(rs.contains(rs[kr as int]));
    }
    if _conn.rooms[kr].room_kind != RoomKind::Group {
        proof {
            if crate::store::has_room_of_kind(_conn.rooms@, room, RoomKind::Group) {
                lemma_group_at(_conn, room);
            }
        }
        return Err(DbError::NotFound);
    }
    let remover_is_admin = match membership_of(&_conn.members, room, remover_user_id) {
        Some(adm) => adm,
        None => false,
    };
    proof {
        if is_admin_in(_conn.members@, room, remover_user_id) && !remover_is_admin {
            assert(_conn.members@.contains(part(room, remover_user_id, false)));
        }
    }
    if !remover_is_admin && remover_user_id != user {
        return Err(DbError::PermissionDenied);
    }
    let is_admin = match membership_of(&_conn.members, room, user) {
        Some(adm) => adm,
        None => return Err(DbError::NotFound),
    };
    if is_admin {
        let mut dead: Vec<i32> = Vec::new();
        dead.push(room);
        proof {
            assert(dead@ =~= seq![room]);
        }
        _conn.drop_rooms_cascade(&dead, None);
        return Ok(true);
    }
    proof {
        assert(!is_admin_in(_conn.members@, room, user));
    }
    let k = match find_membership(&_conn.members, membership(room, user, false)) {
        Some(k) => k,
        None => return Err(DbError::NotFound),
    };
    let ghost pre = *_conn;
    let _ = _conn.members.remove(k);
    proof {
        let ms = pre.members@;
        let i = member_index(ms, part(room, user, false));
        assert(ms[k as int] == part(room, user, false));
        assert(ms[i] == ms[k as int]);
        lemma_remove_member_wf(&pre, _conn, k as int);
    }
    Ok(true)
}

/// Removing a non-admin membership of a group keeps the invariant.
proof fn lemma_remove_member_wf(pre: &ChatDb, post: &ChatDb, k: int)
    requires
        pre.wf(),
        0 <= k < pre.members@.len(),
        !pre.members@[k].is_admin,
        crate::store::has_room_of_kind(pre.rooms@, pre.members@[k].chat_room_id, RoomKind::Group),
        post.members@ == pre.members@.remove(k),
        post.rooms@ == pre.rooms@,
        post.next_room_id == pre.next_room_id,
        same_accounts(pre, post),
    ensures
        post.wf(),
{
    let ms = pre.members@;
    let nms = post.members@;
    let gone = ms[k];
    let room = gone.chat_room_id;
    crate::seq_facts::lemma_remove_contains(ms, k);
    lemma_group_at(pre, room);
    assert forall|x: QChatRooms| #[trigger] pre.rooms@.contains(x) && x.room_kind == RoomKind::P2P implies
        forall|n: ChatRoomParticipants| n.chat_room_id == x.chat_room_id ==> (#[trigger] nms.contains(n) <==> ms.contains(n)) by {
        assert(x.chat_room_id != room);
    }
    assert forall|x: QChatRooms| #[trigger] post.rooms@.contains(x) && x.room_kind == RoomKind::Group implies exists|u: i32| is_admin_in(nms, x.chat_room_id, u) by {
        let u = choose|u: i32| is_admin_in(ms, x.chat_room_id, u);
        assert(is_admin_in(nms, x.chat_room_id, u));
    }
    assert forall|x: QChatRooms| #[trigger] post.rooms@.contains(x) && x.room_kind == RoomKind::P2P implies exists|a: i32, b: i32| crate::store::pair_room(nms, x.chat_room_id, a, b) by {
        lemma_same_room_members(nms, ms, x.chat_room_id);
        let (a, b) = choose|a: i32, b: i32| crate::store::pair_room(ms, x.chat_room_id, a, b);
        assert(crate::store::pair_room(nms, x.chat_room_id, a, b));
    }
    assert forall|x: QChatRooms, y: QChatRooms, a: i32, b: i32|
        post.rooms@.contains(x) && post.rooms@.contains(y) && x.room_kind == RoomKind::P2P && y.room_kind == RoomKind::P2P
            && #[trigger] crate::store::pair_room(nms, x.chat_room_id, a, b) && #[trigger] crate::store::pair_room(nms, y.chat_room_id, a, b)
        implies x == y by {
        lemma_same_room_members(nms, ms, x.chat_room_id);
        lemma_same_room_members(nms, ms, y.chat_room_id);
        assert(crate::store::pair_room(ms, x.chat_room_id, a, b));
        assert(crate::store::pair_room(ms, y.chat_room_id, a, b));
    }
}

/// The position of the room called `name` among `rooms`, where it is there.
pub open spec fn room_index_named(rooms: Seq<QChatRooms>, name: Seq<char>) -> int {
    choose|i: int| 0 <= i < rooms.len() && rooms[i].room_name@ == name
}

/// Why renaming the group called `old_name` to `new_name` on behalf of the
/// user called `editor` fails, checked in this order, or `None`.
pub open spec fn update_group_refusal(db: &ChatDb, old_name: Seq<char>, new_name: Seq<char>, editor: Seq<char>) -> Option<DbError> {
    let x = room_with_name(db.rooms@, old_name);
    let e = user_with_name(db.users@, editor).user_id;
    if !room_named(db.rooms@, old_name) || !user_named(db.users@, editor) || x.room_kind != RoomKind::Group {
        Some(DbError::NotFound)
    } else if !is_admin_in(db.members@, x.chat_room_id, e) {
        Some(DbError::PermissionDenied)
    } else if new_name != old_name && room_named(db.rooms@, new_name) {
        Some(DbError::Conflict)
    } else {
        None
    }
}

/// Renames the group called `old_chat_room_name` and replaces its
/// description, when the user called `editor_username` is its admin.
pub fn update_group_chat_room_info(
    _conn: &mut ChatDb,
    old_chat_room_name: &String,
    new_chat_room_info: &UpdatableChatRooms,
    editor_username: &String,
) -> (r: Result<QChatRooms, DbError>)
    requires
        old(_conn).wf(),
    ensures
        final(_conn).wf(),
        ({
            let pre = &*old(_conn);
            let post = &*final(_conn);
            match update_group_refusal(pre, old_chat_room_name@, new_chat_room_info.room_name@, editor_username@) {
                Some(e) => r == Err::<QChatRooms, DbError>(e) && *post == *pre,
                None => match r {
                    Ok(x) => {
                        let k = room_index_named(pre.rooms@, old_chat_room_name@);
                        let was = pre.rooms@[k];
                        &&& post.rooms@.len() == pre.rooms@.len()
                        &&& forall|i: int| 0 <= i < pre.rooms@.len() && i != k ==> post.rooms@[i] == pre.rooms@[i]
                        &&& same_room(post.rooms@[k], x)
                        &&& x.chat_room_id == was.chat_room_id
                        &&& x.room_name@ == new_chat_room_info.room_name@
                        &&& x.room_description@ == new_chat_room_info.room_description@
                        &&& x.chat_room_pubkey@ == was.chat_room_pubkey@
                        &&& x.room_kind == RoomKind::Group
                        &&& post.members@ == pre.members@
                        &&& post.next_room_id == pre.next_room_id
                        &&& same_accounts(pre, post)
                    },
                    Err(_) => false,
                },
            }
        }),
{
    let kr = match find_room_by_name(&_conn.rooms, old_chat_room_name) {
        Some(k) => k,
        None => return Err(DbError::NotFound),
    };
    let ke = match find_user_by_name(&_conn.users, editor_username) {
        Some(k) => k,
        None => return Err(DbError::NotFound),
    };
    let e = _conn.users[ke].user_id;
    let id = _conn.rooms[kr].chat_room_id;
    proof {
        let us = _conn.users@;
        let rs = _conn.rooms@;
        assert(us.contains(us[ke as int]));
        assert(us[ke as int] == user_with_name(us, editor_username@));
        assert(rs.contains(rs[kr as int]));
        assert(rs[kr as int] == room_with_name(rs, old_chat_room_name@));
        let i = room_index_named(rs, old_chat_room_name@);
        assert(rs.contains(rs[i]));
        assert(i == kr);
    }
    if _conn.rooms[kr].room_kind != RoomKind::Group {
        return Err(DbError::NotFound);
    }
    match membership_of(&_conn.members, id, e) {
        Some(true) => {},
        _ => {
            proof {
                if is_admin_in(_conn.members@, id, e) {
                    assert(_conn.members@.contains(part(id, e, true)));
                }
            }
            return Err(DbError::PermissionDenied);
        },
    }
    if new_chat_room_info.room_name != *old_chat_room_name && find_room_by_name(
        &_conn.rooms,
        &new_chat_room_info.room_name,
    ).is_some() {
        return Err(DbError::Conflict);
    }
    let ghost pre = *_conn;
    let mut row = _conn.rooms.remove(kr);
    row.room_name = new_chat_room_info.room_name.clone();
    row.room_description = new_chat_room_info.room_description.clone();
    let out = copy_room(&row);
    _conn.rooms.insert(kr, row);
    proof {
        assert(_conn.rooms@ =~= pre.rooms@.update(kr as int, row));
        lemma_rename_wf(&pre, _conn, kr as int, row);
    }
    Ok(out)
}

/// Renaming a group to a name that no other room has, keeping its identity
/// and kind, keeps the invariant.
proof fn lemma_rename_wf(pre: &ChatDb, post: &ChatDb, k: int, row: QChatRooms)
    requires
        pre.wf(),
        0 <= k < pre.rooms@.len(),
        pre.rooms@[k].room_kind == RoomKind::Group,
        row.chat_room_id == pre.rooms@[k].chat_room_id,
        row.room_kind == RoomKind::Group,
        forall|x: QChatRooms| #[trigger] pre.rooms@.contains(x) && x.room_name@ == row.room_name@ ==> x == pre.rooms@[k],
        post.rooms@ == pre.rooms@.update(k, row),
        post.members@ == pre.members@,
        post.next_room_id == pre.next_room_id,
        same_accounts(pre, post),
    ensures
        post.wf(),
{
    let rs = pre.rooms@;
    let nrs = post.rooms@;
    let old_row = rs[k];
    assert(rs.contains(old_row));
    crate::seq_facts::lemma_update_contains(rs, k, row);
    if rs.contains(row) {
        assert(row == old_row);
        assert(nrs =~= rs);
    }
    assert forall|x: QChatRooms| #[trigger] nrs.contains(x) implies x == row || (rs.contains(x) && x.chat_room_id != row.chat_room_id) by {
        if x != row {
            assert(rs.contains(x) && x != old_row);
        }
    }
    assert forall|m: ChatRoomParticipants| #[trigger] post.members@.contains(m) implies crate::store::has_room(nrs, m.chat_room_id) by {
        let x = choose|x: QChatRooms| rs.contains(x) && x.chat_room_id == m.chat_room_id;
        if x == old_row {
            assert(nrs.contains(row));
        } else {
            assert(nrs.contains(x));
        }
    }
    assert forall|x: QChatRooms| #[trigger] nrs.contains(x) && x.room_kind == RoomKind::Group implies exists|u: i32| is_admin_in(post.members@, x.chat_room_id, u) by {
        if x == row {
            assert(rs.contains(old_row));
        }
    }
}

/// In a well-formed store, a group with identity `room` is stored, and every
/// stored room with that identity is a group.
proof fn lemma_group_at(db: &ChatDb, room: i32)
    requires
        db.wf(),
        crate::store::has_room_of_kind(db.rooms@, room, RoomKind::Group),
    ensures
        crate::store::has_room(db.rooms@, room),
        forall|x: QChatRooms| #[trigger] db.rooms@.contains(x) && x.chat_room_id == room ==> x.room_kind == RoomKind::Group,
{
    let g = choose|x: QChatRooms| db.rooms@.contains(x) && x.chat_room_id == room && x.room_kind == RoomKind::Group;
    assert(db.rooms@.contains(g));
}

} // verus!
