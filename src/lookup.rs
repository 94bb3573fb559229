//! Identity lookup: users by username, email or identity, rooms by name or
//! identity, and the membership queries the engine builds on.
use vstd::prelude::*;
use crate::db_models::{part, ChatRoomParticipants, QChatRooms, QUsers};
use crate::store::{has_room, has_user, is_member, room_named, user_named};

verus! {

/// The user called `name`, where there is one.
pub open spec fn user_with_name(users: Seq<QUsers>, name: Seq<char>) -> QUsers {
    choose|x: QUsers| users.contains(x) && x.username@ == name
}

/// The user whose email is `email`, where there is one.
pub open spec fn user_with_email(users: Seq<QUsers>, email: Seq<char>) -> QUsers {
    choose|x: QUsers| users.contains(x) && x.email@ == email
}

/// Some user of `users` has email `email`.
pub open spec fn user_emailed(users: Seq<QUsers>, email: Seq<char>) -> bool {
    exists|x: QUsers| #![trigger users.contains(x)] users.contains(x) && x.email@ == email
}

/// The user with identity `id`, where there is one.
pub open spec fn user_with_id(users: Seq<QUsers>, id: i32) -> QUsers {
    choose|x: QUsers| users.contains(x) && x.user_id == id
}

/// The room with identity `id`, where there is one.
pub open spec fn room_with_id(rooms: Seq<QChatRooms>, id: i32) -> QChatRooms {
    choose|x: QChatRooms| rooms.contains(x) && x.chat_room_id == id
}

/// The room called `name`, where there is one.
pub open spec fn room_with_name(rooms: Seq<QChatRooms>, name: Seq<char>) -> QChatRooms {
    choose|x: QChatRooms| rooms.contains(x) && x.room_name@ == name
}

/// Two rows describe the same room.
pub open spec fn same_room(a: QChatRooms, b: QChatRooms) -> bool {
    &&& a.chat_room_id == b.chat_room_id
    &&& a.room_name@ == b.room_name@
    &&& a.room_description@ == b.room_description@
    &&& a.chat_room_pubkey@ == b.chat_room_pubkey@
    &&& a.room_kind == b.room_kind
}

/// Index of the user called `name`.
pub(crate) fn find_user_by_name(users: &Vec<QUsers>, name: &String) -> (r: Option<usize>)
    ensures
        match r {
            Some(k) => k < users@.len() && users@[k as int].username@ == name@ && user_named(users@, name@),
            None => !user_named(users@, name@),
        },
{
    let mut i: usize = 0;
    while i < users.len()
        invariant
            i <= users@.len(),
            forall|j: int| 0 <= j < i ==> #[trigger] users@[j].username@ != name@,
        decreases users@.len() - i,
    {
        if users[i].username == *name {
            assert(users@.contains(users@[i as int]));
            return Some(i);
        }
        i = i + 1;
    }
    assert forall|x: QUsers| #[trigger] users@.contains(x) implies x.username@ != name@ by {
        let j = choose|j: int| 0 <= j < users@.len() && users@[j] == x;
        assert(users@[j].username@ != name@);
    }
    None
}

/// Index of the user whose email is `email`.
pub(crate) fn find_user_by_email(users: &Vec<QUsers>, email: &String) -> (r: Option<usize>)
    ensures
        match r {
            Some(k) => k < users@.len() && users@[k as int].email@ == email@ && user_emailed(users@, email@),
            None => !user_emailed(users@, email@),
        },
{
    let mut i: usize = 0;
    while i < users.len()
        invariant
            i <= users@.len(),
            forall|j: int| 0 <= j < i ==> #[trigger] users@[j].email@ != email@,
        decreases users@.len() - i,
    {
        if users[i].email == *email {
            assert(users@.contains(users@[i as int]));
            return Some(i);
        }
        i = i + 1;
    }
    assert forall|x: QUsers| #[trigger] users@.contains(x) implies x.email@ != email@ by {
        let j = choose|j: int| 0 <= j < users@.len() && users@[j] == x;
        assert(users@[j].email@ != email@);
    }
    None
}

/// Index of the user with identity `id`.
pub(crate) fn find_user_by_id(users: &Vec<QUsers>, id: i32) -> (r: Option<usize>)
    ensures
        match r {
            Some(k) => k < users@.len() && users@[k as int].user_id == id && has_user(users@, id),
            None => !has_user(users@, id),
        },
{
    let mut i: usize = 0;
    while i < users.len()
        invariant
            i <= users@.len(),
            forall|j: int| 0 <= j < i ==> #[trigger] users@[j].user_id != id,
        decreases users@.len() - i,
    {
        if users[i].user_id == id {
            assert(users@.contains(users@[i as int]));
            return Some(i);
        }
        i = i + 1;
    }
    assert forall|x: QUsers| #[trigger] users@.contains(x) implies x.user_id != id by {
        let j = choose|j: int| 0 <= j < users@.len() && users@[j] == x;
        assert(users@[j].user_id != id);
    }
    None
}

/// Index of the room with identity `id`.
pub(crate) fn find_room_by_id(rooms: &Vec<QChatRooms>, id: i32) -> (r: Option<usize>)
    ensures
        match r {
            Some(k) => k < rooms@.len() && rooms@[k as int].chat_room_id == id && has_room(rooms@, id),
            None => !has_room(rooms@, id),
        },
{
    let mut i: usize = 0;
    while i < rooms.len()
        invariant
            i <= rooms@.len(),
            forall|j: int| 0 <= j < i ==> #[trigger] rooms@[j].chat_room_id != id,
        decreases rooms@.len() - i,
    {
        if rooms[i].chat_room_id == id {
            assert(rooms@.contains(rooms@[i as int]));
            return Some(i);
        }
        i = i + 1;
    }
    assert forall|x: QChatRooms| #[trigger] rooms@.contains(x) implies x.chat_room_id != id by {
        let j = choose|j: int| 0 <= j < rooms@.len() && rooms@[j] == x;
        assert(rooms@[j].chat_room_id != id);
    }
    None
}

/// Index of the room called `name`.
pub(crate) fn find_room_by_name(rooms: &Vec<QChatRooms>, name: &String) -> (r: Option<usize>)
    ensures
        match r {
            Some(k) => k < rooms@.len() && rooms@[k as int].room_name@ == name@ && room_named(rooms@, name@),
            None => !room_named(rooms@, name@),
        },
{
    let mut i: usize = 0;
    while i < rooms.len()
        invariant
            i <= rooms@.len(),
            forall|j: int| 0 <= j < i ==> #[trigger] rooms@[j].room_name@ != name@,
        decreases rooms@.len() - i,
    {
        if rooms[i].room_name == *name {
            assert(rooms@.contains(rooms@[i as int]));
            return Some(i);
        }
        i = i + 1;
    }
    assert forall|x: QChatRooms| #[trigger] rooms@.contains(x) implies x.room_name@ != name@ by {
        let j = choose|j: int| 0 <= j < rooms@.len() && rooms@[j] == x;
        assert(rooms@[j].room_name@ != name@);
    }
    None
}

/// The admin flag of `user` in `room`, where the user belongs to the room.
pub(crate) fn membership_of(ms: &Vec<ChatRoomParticipants>, room: i32, user: i32) -> (r: Option<
    bool,
>)
    ensures
        match r {
            Some(adm) => ms@.contains(part(room, user, adm)),
            None => !is_member(ms@, room, user),
        },
{
    let mut i: usize = 0;
    while i < ms.len()
        invariant
            i <= ms@.len(),
            forall|j: int|
                0 <= j < i ==> !(#[trigger] ms@[j].chat_room_id == room && ms@[j].user_id == user),
        decreases ms@.len() - i,
    {
        let m = ms[i];
        if m.chat_room_id == room && m.user_id == user {
            assert(ms@[i as int] == part(room, user, m.is_admin));
            return Some(m.is_admin);
        }
        i = i + 1;
    }
    assert forall|adm: bool| !ms@.contains(#[trigger] part(room, user, adm)) by {
        if ms@.contains(part(room, user, adm)) {
            let j = choose|j: int| 0 <= j < ms@.len() && ms@[j] == part(room, user, adm);
            assert(ms@[j].chat_room_id == room);
        }
    }
    None
}

/// An admin of `room`, where it has one.
pub(crate) fn find_admin(ms: &Vec<ChatRoomParticipants>, room: i32) -> (r: Option<i32>)
    ensures
        match r {
            Some(u) => ms@.contains(part(room, u, true)),
            None => forall|u: i32| !ms@.contains(#[trigger] part(room, u, true)),
        },
{
    let mut i: usize = 0;
    while i < ms.len()
        invariant
            i <= ms@.len(),
            forall|j: int|
                0 <= j < i ==> !(#[trigger] ms@[j].chat_room_id == room && ms@[j].is_admin),
        decreases ms@.len() - i,
    {
        let m = ms[i];
        if m.chat_room_id == room && m.is_admin {
            assert(ms@[i as int] == part(room, m.user_id, true));
            return Some(m.user_id);
        }
        i = i + 1;
    }
    assert forall|u: i32| !ms@.contains(#[trigger] part(room, u, true)) by {
        if ms@.contains(part(room, u, true)) {
            let j = choose|j: int| 0 <= j < ms@.len() && ms@[j] == part(room, u, true);
            assert(ms@[j].chat_room_id == room);
        }
    }
    None
}

/// A copy of a byte vector.
pub(crate) fn copy_bytes(v: &Vec<u8>) -> (r: Vec<u8>)
    ensures
        r@ == v@,
{
    let mut out: Vec<u8> = Vec::new();
    let mut i: usize = 0;
    while i < v.len()
        invariant
            i <= v@.len(),
            out@ == v@.take(i as int),
        decreases v@.len() - i,
    {
        out.push(v[i]);
        i = i + 1;
        assert(out@ =~= v@.take(i as int));
    }
    assert(v@.take(v@.len() as int) =~= v@);
    out
}

/// A copy of a stored user.
pub(crate) fn copy_user(u: &QUsers) -> (r: QUsers)
    ensures
        r == *u,
{
    QUsers {
        user_id: u.user_id,
        username: u.username.clone(),
        email: u.email.clone(),
        password: u.password.clone(),
    }
}

/// A copy of a stored room.
pub(crate) fn copy_room(x: &QChatRooms) -> (r: QChatRooms)
    ensures
        same_room(r, *x),
{
    QChatRooms {
        chat_room_id: x.chat_room_id,
        room_name: x.room_name.clone(),
        room_description: x.room_description.clone(),
        chat_room_pubkey: copy_bytes(&x.chat_room_pubkey),
        room_kind: x.room_kind,
    }
}

} // verus!
