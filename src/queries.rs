//! Read-only queries: users and profiles, rooms, their members, and the
//! rooms a user belongs to.
use vstd::prelude::*;
use crate::accounts::{copy_profile, find_profile, has_profile, profile_index};
use crate::lookup::{
    copy_room, copy_user, find_room_by_id, find_room_by_name, find_user_by_email, find_user_by_id,
    find_user_by_name, membership_of, room_with_id, room_with_name, same_room, user_emailed,
    user_with_email, user_with_id, user_with_name,
};
use crate::db_models::{ChatRoomParticipants, DbError, QChatRooms, QUsers, RoomKind, UserProfiles};
use crate::seq_facts::lemma_filter_take_step;
use crate::store::{has_room, has_room_of_kind, has_user, is_member, room_named, user_named, ChatDb};

verus! {

/// The user called `_username`.
pub fn get_user_with_username(_conn: &ChatDb, _username: &str) -> (r: Result<QUsers, DbError>)
    requires
        _conn.wf(),
    ensures
        match r {
            Ok(x) => user_named(_conn.users@, _username@) && x == user_with_name(_conn.users@, _username@),
            Err(e) => e == DbError::NotFound && !user_named(_conn.users@, _username@),
        },
{
    let key = _username.to_owned();
    match find_user_by_name(&_conn.users, &key) {
        Some(k) => {
            proof {
                let us = _conn.users@;
                assert(us.contains(us[k as int]));
            }
            Ok(copy_user(&_conn.users[k]))
        },
        None => Err(DbError::NotFound),
    }
}

/// The user whose email is `_email`.
pub fn get_user_with_email(_conn: &ChatDb, _email: &str) -> (r: Result<QUsers, DbError>)
    requires
        _conn.wf(),
    ensures
        match r {
            Ok(x) => user_emailed(_conn.users@, _email@) && x == user_with_email(_conn.users@, _email@),
            Err(e) => e == DbError::NotFound && !user_emailed(_conn.users@, _email@),
        },
{
    let key = _email.to_owned();
    match find_user_by_email(&_conn.users, &key) {
        Some(k) => {
            proof {
                let us = _conn.users@;
                assert(us.contains(us[k as int]));
            }
            Ok(copy_user(&_conn.users[k]))
        },
        None => Err(DbError::NotFound),
    }
}

/// The user with identity `_user_id`.
pub fn get_user_with_user_id(_conn: &ChatDb, _user_id: i32) -> (r: Result<QUsers, DbError>)
    requires
        _conn.wf(),
    ensures
        match r {
            Ok(x) => has_user(_conn.users@, _user_id) && x == user_with_id(_conn.users@, _user_id),
            Err(e) => e == DbError::NotFound && !has_user(_conn.users@, _user_id),
        },
{
    match find_user_by_id(&_conn.users, _user_id) {
        Some(k) => {
            proof {
                let us = _conn.users@;
                assert(us.contains(us[k as int]));
            }
            Ok(copy_user(&_conn.users[k]))
        },
        None => Err(DbError::NotFound),
    }
}

/// The profile of the user with identity `_user_id`.
pub fn get_user_profile_with_user_id(_conn: &ChatDb, _user_id: i32) -> (r: Result<UserProfiles, DbError>)
    requires
        _conn.wf(),
    ensures
        match r {
            Ok(p) => has_profile(_conn.profiles@, _user_id) && p == _conn.profiles@[profile_index(_conn.profiles@, _user_id)],
            Err(e) => e == DbError::NotFound && !has_profile(_conn.profiles@, _user_id),
        },
{
    match find_profile(&_conn.profiles, _user_id) {
        Some(k) => {
            proof {
                let ps = _conn.profiles@;
                let j = profile_index(ps, _user_id);
                assert(ps[j].user_id == ps[k as int].user_id);
            }
            Ok(copy_profile(&_conn.profiles[k]))
        },
        None => Err(DbError::NotFound),
    }
}

/// The profile of the user called `_username`.
pub fn get_user_profile_with_username(_conn: &ChatDb, _username: &String) -> (r: Result<UserProfiles, DbError>)
    requires
        _conn.wf(),
    ensures
        ({
            let u = user_with_name(_conn.users@, _username@).user_id;
            match r {
                Ok(p) => user_named(_conn.users@, _username@) && has_profile(_conn.profiles@, u) && p == _conn.profiles@[profile_index(_conn.profiles@, u)],
                Err(e) => e == DbError::NotFound && (!user_named(_conn.users@, _username@) || !has_profile(_conn.profiles@, u)),
            }
        }),
{
    let k = match find_user_by_name(&_conn.users, _username) {
        Some(k) => k,
        None => return Err(DbError::NotFound),
    };
    proof {
        let us = _conn.users@;
        assert(us.contains(us[k as int]));
        assert(us[k as int] == user_with_name(us, _username@));
    }
    get_user_profile_with_user_id(_conn, _conn.users[k].user_id)
}

/// The memberships of room `id`, in insertion order.
pub open spec fn members_of(ms: Seq<ChatRoomParticipants>, id: i32) -> Seq<ChatRoomParticipants> {
    ms.filter(|m: ChatRoomParticipants| m.chat_room_id == id)
}

/// The memberships of room `id`, in insertion order.
fn collect_members(ms: &Vec<ChatRoomParticipants>, id: i32) -> (r: Vec<ChatRoomParticipants>)
    ensures
        r@ == members_of(ms@, id),
{
    let ghost p = |m: ChatRoomParticipants| m.chat_room_id == id;
    let mut out: Vec<ChatRoomParticipants> = Vec::new();
    let mut i: usize = 0;
    while i < ms.len()
        invariant
            p == (|m: ChatRoomParticipants| m.chat_room_id == id),
            i <= ms@.len(),
            out@ == ms@.take(i as int).filter(p),
        decreases ms@.len() - i,
    {
        proof {
            lemma_filter_take_step(ms@, p, i as int);
        }
        if ms[i].chat_room_id == id {
            out.push(ms[i]);
        }
        i = i + 1;
    }
    proof {
        assert(ms@.take(ms@.len() as int) =~= ms@);
    }
    out
}

/// The memberships of the room with identity `_chat_room_id`, in insertion
/// order; a room with no member is not found.
pub fn get_chat_room_participants_by_id(_conn: &ChatDb, _chat_room_id: i32) -> (r: Result<Vec<ChatRoomParticipants>, DbError>)
    ensures
        match r {
            Ok(v) => v@ == members_of(_conn.members@, _chat_room_id) && v@.len() > 0,
            Err(e) => e == DbError::NotFound && members_of(_conn.members@, _chat_room_id).len() == 0,
        },
{
    let v = collect_members(&_conn.members, _chat_room_id);
    if v.len() == 0 {
        Err(DbError::NotFound)
    } else {
        Ok(v)
    }
}

/// The memberships of the room called `_chat_room_name`, in insertion order;
/// a room with no member is not found.
pub fn get_chat_room_participants_by_name(_conn: &ChatDb, _chat_room_name: &String) -> (r: Result<Vec<ChatRoomParticipants>, DbError>)
    requires
        _conn.wf(),
    ensures
        ({
            let id = room_with_name(_conn.rooms@, _chat_room_name@).chat_room_id;
            match r {
                Ok(v) => room_named(_conn.rooms@, _chat_room_name@) && v@ == members_of(_conn.members@, id) && v@.len() > 0,
                Err(e) => e == DbError::NotFound && (!room_named(_conn.rooms@, _chat_room_name@) || members_of(_conn.members@, id).len() == 0),
            }
        }),
{
    let k = match find_room_by_name(&_conn.rooms, _chat_room_name) {
        Some(k) => k,
        None => return Err(DbError::NotFound),
    };
    proof {
        let rs = _conn.rooms@;
        assert(rs.contains(rs[k as int]));
        assert(rs[k as int] == room_with_name(rs, _chat_room_name@));
    }
    get_chat_room_participants_by_id(_conn, _conn.rooms[k].chat_room_id)
}

/// The room called `_chat_room_name`.
pub fn get_group_chat_by_name(_conn: &ChatDb, _chat_room_name: &String) -> (r: Result<QChatRooms, DbError>)
    requires
        _conn.wf(),
    ensures
        match r {
            Ok(x) => room_named(_conn.rooms@, _chat_room_name@) && same_room(x, room_with_name(_conn.rooms@, _chat_room_name@)),
            Err(e) => e == DbError::NotFound && !room_named(_conn.rooms@, _chat_room_name@),
        },
{
    match find_room_by_name(&_conn.rooms, _chat_room_name) {
        Some(k) => {
            proof {
                let rs = _conn.rooms@;
                assert(rs.contains(rs[k as int]));
            }
            Ok(copy_room(&_conn.rooms[k]))
        },
        None => Err(DbError::NotFound),
    }
}

/// The room with identity `_chat_room_id`.
pub fn get_group_chat_by_id(_conn: &ChatDb, _chat_room_id: i32) -> (r: Result<QChatRooms, DbError>)
    requires
        _conn.wf(),
    ensures
        match r {
            Ok(x) => has_room(_conn.rooms@, _chat_room_id) && same_room(x, room_with_id(_conn.rooms@, _chat_room_id)),
            Err(e) => e == DbError::NotFound && !has_room(_conn.rooms@, _chat_room_id),
        },
{
    match find_room_by_id(&_conn.rooms, _chat_room_id) {
        Some(k) => {
            proof {
                let rs = _conn.rooms@;
                assert(rs.contains(rs[k as int]));
            }
            Ok(copy_room(&_conn.rooms[k]))
        },
        None => Err(DbError::NotFound),
    }
}

/// Whether `_chat_room_id` is a group room.
pub fn is_group_chat(_conn: &ChatDb, _chat_room_id: i32) -> (r: bool)
    requires
        _conn.wf(),
    ensures
        r == has_room_of_kind(_conn.rooms@, _chat_room_id, RoomKind::Group),
{
    match find_room_by_id(&_conn.rooms, _chat_room_id) {
        Some(k) => {
            proof {
                let rs = _conn.rooms@;
                assert(rs.contains(rs[k as int]));
            }
            _conn.rooms[k].room_kind == RoomKind::Group
        },
        None => false,
    }
}

/// Whether `_chat_room_id` is a stored room.
pub fn is_valid_chatroom(_conn: &ChatDb, _chat_room_id: i32) -> (r: bool)
    ensures
        r == has_room(_conn.rooms@, _chat_room_id),
{
    find_room_by_id(&_conn.rooms, _chat_room_id).is_some()
}

/// Whether `_user_id` is a stored user.
pub fn is_valid_user(_conn: &ChatDb, _user_id: i32) -> (r: bool)
    ensures
        r == has_user(_conn.users@, _user_id),
{
    find_user_by_id(&_conn.users, _user_id).is_some()
}

/// Whether the user `_user_id` belongs to the room `_chat_room_id`.
pub fn is_user_in_chat_room(_conn: &ChatDb, _chat_room_id: i32, _user_id: i32) -> (r: bool)
    ensures
        r == is_member(_conn.members@, _chat_room_id, _user_id),
{
    membership_of(&_conn.members, _chat_room_id, _user_id).is_some()
}

/// The rooms of kind `kind` that the user `u` belongs to, in insertion order.
pub open spec fn rooms_of(db: &ChatDb, u: i32, kind: RoomKind) -> Seq<QChatRooms> {
    db.rooms@.filter(|x: QChatRooms| x.room_kind == kind && is_member(db.members@, x.chat_room_id, u))
}

/// Copies of the rooms of kind `kind` that the user `u` belongs to.
fn collect_rooms(db: &ChatDb, u: i32, kind: RoomKind) -> (r: Vec<QChatRooms>)
    ensures
        r@.len() == rooms_of(db, u, kind).len(),
        forall|i: int| 0 <= i < r@.len() ==> #[trigger] same_room(r@[i], rooms_of(db, u, kind)[i]),
{
    let ghost p = |x: QChatRooms| x.room_kind == kind && is_member(db.members@, x.chat_room_id, u);
    let mut out: Vec<QChatRooms> = Vec::new();
    let mut i: usize = 0;
    while i < db.rooms.len()
        invariant
            p == (|x: QChatRooms| x.room_kind == kind && is_member(db.members@, x.chat_room_id, u)),
            i <= db.rooms@.len(),
            out@.len() == db.rooms@.take(i as int).filter(p).len(),
            forall|j: int| 0 <= j < out@.len() ==> #[trigger] same_room(out@[j], db.rooms@.take(i as int).filter(p)[j]),
        decreases db.rooms@.len() - i,
    {
        proof {
            lemma_filter_take_step(db.rooms@, p, i as int);
        }
        let x = &db.rooms[i];
        if x.room_kind == kind && membership_of(&db.members, x.chat_room_id, u).is_some() {
            out.push(copy_room(x));
        }
        i = i + 1;
    }
    proof {
        assert(db.rooms@.take(db.rooms@.len() as int) =~= db.rooms@);
    }
    out
}

/// The p2p rooms of the user `_user_id`; none is not found.
pub fn get_user_p2p_chat_rooms_by_user_id(_conn: &ChatDb, _user_id: i32) -> (r: Result<Vec<QChatRooms>, DbError>)
    ensures
        match r {
            Ok(v) => v@.len() == rooms_of(_conn, _user_id, RoomKind::P2P).len() && v@.len() > 0
                && forall|i: int| 0 <= i < v@.len() ==> #[trigger] same_room(v@[i], rooms_of(_conn, _user_id, RoomKind::P2P)[i]),
            Err(e) => e == DbError::NotFound && rooms_of(_conn, _user_id, RoomKind::P2P).len() == 0,
        },
{
    let v = collect_rooms(_conn, _user_id, RoomKind::P2P);
    if v.len() == 0 {
        Err(DbError::NotFound)
    } else {
        Ok(v)
    }
}

/// The group rooms of the user `_user_id`; none is not found.
pub fn get_user_group_chat_rooms_by_user_id(_conn: &ChatDb, _user_id: i32) -> (r: Result<Vec<QChatRooms>, DbError>)
    ensures
        match r {
            Ok(v) => v@.len() == rooms_of(_conn, _user_id, RoomKind::Group).len() && v@.len() > 0
                && forall|i: int| 0 <= i < v@.len() ==> #[trigger] same_room(v@[i], rooms_of(_conn, _user_id, RoomKind::Group)[i]),
            Err(e) => e == DbError::NotFound && rooms_of(_conn, _user_id, RoomKind::Group).len() == 0,
        },
{
    let v = collect_rooms(_conn, _user_id, RoomKind::Group);
    if v.len() == 0 {
        Err(DbError::NotFound)
    } else {
        Ok(v)
    }
}

} // verus!
