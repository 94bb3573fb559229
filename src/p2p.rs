//! Peer-to-peer rooms: at most one per unordered pair of users, exactly two
//! non-admin members, created and destroyed as a whole.
use vstd::prelude::*;
use vstd::string::{StrSliceExecFns, StringExecFns};
use crate::lookup::{copy_room, find_user_by_id, find_user_by_name, membership_of, same_room, user_with_name};
use crate::db_models::{part, ChatRoomParticipants, DbError, QChatRooms, RoomKind};
use crate::naming::{decimal, hash_of, p2p_room_name};
use crate::repo::{keep_member, keep_room, lemma_add_room_wf, new_room_members_ok};
use crate::seq_facts::lemma_push_contains;
use crate::store::{
    has_shared_p2p, has_user, pair_room, room_named, same_accounts, shared_p2p_room,
    shares_p2p, user_named, ChatDb,
};

verus! {

/// In a well-formed store, a p2p room that `a` and `b` share has exactly
/// `a` and `b` as members.
pub proof fn lemma_shared_pair(db: &ChatDb, x: QChatRooms, a: i32, b: i32)
    requires
        db.wf(),
        shares_p2p(db, x, a, b),
    ensures
        pair_room(db.members@, x.chat_room_id, a, b),
        pair_room(db.members@, x.chat_room_id, b, a),
{
    let ms = db.members@;
    let id = x.chat_room_id;
    let (p, q) = choose|p: i32, q: i32| pair_room(ms, id, p, q);
    if ms.contains(part(id, a, true)) {
        assert(false);
    }
    if ms.contains(part(id, b, true)) {
        assert(false);
    }
    assert(ms.contains(part(id, a, false)));
    assert(ms.contains(part(id, b, false)));
}

/// In a well-formed store two users share at most one p2p room.
pub proof fn lemma_shared_unique(db: &ChatDb, x: QChatRooms, y: QChatRooms, a: i32, b: i32)
    requires
        db.wf(),
        shares_p2p(db, x, a, b),
        shares_p2p(db, y, a, b),
    ensures
        x == y,
{
    lemma_shared_pair(db, x, a, b);
    lemma_shared_pair(db, y, a, b);
}

/// Sharing a p2p room does not depend on the order of the two users.
pub proof fn lemma_shared_symmetric(db: &ChatDb, a: i32, b: i32)
    ensures
        has_shared_p2p(db, a, b) == has_shared_p2p(db, b, a),
{
    if has_shared_p2p(db, a, b) {
        let x = choose|x: QChatRooms| #[trigger] shares_p2p(db, x, a, b);
        assert(shares_p2p(db, x, b, a));
    }
    if has_shared_p2p(db, b, a) {
        let x = choose|x: QChatRooms| #[trigger] shares_p2p(db, x, b, a);
        assert(shares_p2p(db, x, a, b));
    }
}

/// Index of the p2p room that `a` and `b` share.
pub(crate) fn find_shared_p2p(db: &ChatDb, a: i32, b: i32) -> (r: Option<usize>)
    requires
        db.wf(),
    ensures
        match r {
            Some(k) => k < db.rooms@.len() && shares_p2p(db, db.rooms@[k as int], a, b)
                && db.rooms@[k as int] == shared_p2p_room(db, a, b),
            None => !has_shared_p2p(db, a, b),
        },
{
    if a == b {
        return None;
    }
    let mut i: usize = 0;
    while i < db.rooms.len()
        invariant
            db.wf(),
            a != b,
            i <= db.rooms@.len(),
            forall|j: int| 0 <= j < i ==> !shares_p2p(db, #[trigger] db.rooms@[j], a, b),
        decreases db.rooms@.len() - i,
    {
        if db.rooms[i].room_kind == RoomKind::P2P {
            let id = db.rooms[i].chat_room_id;
            let ma = membership_of(&db.members, id, a);
            let mb = membership_of(&db.members, id, b);
            if ma.is_some() && mb.is_some() {
                proof {
                    let x = db.rooms@[i as int];
                    assert(db.rooms@.contains(x));
                    assert(shares_p2p(db, x, a, b));
                    let y = shared_p2p_room(db, a, b);
                    lemma_shared_unique(db, x, y, a, b);
                }
                return Some(i);
            }
        }
        i = i + 1;
    }
    proof {
        assert forall|x: QChatRooms| !#[trigger] shares_p2p(db, x, a, b) by {
            if shares_p2p(db, x, a, b) {
                let j = choose|j: int| 0 <= j < db.rooms@.len() && db.rooms@[j] == x;
                assert(!shares_p2p(db, db.rooms@[j], a, b));
            }
        }
    }
    None
}

/// The p2p room that the users `_user_id_1` and `_user_id_2` share.
pub fn get_two_users_p2p_chat_room(conn: &ChatDb, _user_id_1: i32, _user_id_2: i32) -> (r: Result<
    QChatRooms,
    DbError,
>)
    requires
        conn.wf(),
    ensures
        match r {
            Ok(x) => has_shared_p2p(conn, _user_id_1, _user_id_2) && same_room(
                x,
                shared_p2p_room(conn, _user_id_1, _user_id_2),
            ),
            Err(e) => e == DbError::NotFound && !has_shared_p2p(conn, _user_id_1, _user_id_2),
        },
{
    if find_user_by_id(&conn.users, _user_id_1).is_none() || find_user_by_id(
        &conn.users,
        _user_id_2,
    ).is_none() {
        proof {
            if has_shared_p2p(conn, _user_id_1, _user_id_2) {
                let x = choose|x: QChatRooms| #[trigger] shares_p2p(conn, x, _user_id_1, _user_id_2);
                let ms = conn.members@;
                assert(ms.contains(part(x.chat_room_id, _user_id_1, false)) || ms.contains(
                    part(x.chat_room_id, _user_id_1, true),
                ));
                assert(ms.contains(part(x.chat_room_id, _user_id_2, false)) || ms.contains(
                    part(x.chat_room_id, _user_id_2, true),
                ));
            }
        }
        return Err(DbError::NotFound);
    }
    match find_shared_p2p(conn, _user_id_1, _user_id_2) {
        Some(k) => Ok(copy_room(&conn.rooms[k])),
        None => Err(DbError::NotFound),
    }
}

/// Why creating a p2p room between `a` and `b` under the name `name` fails,
/// checked in this order, or `None` where it succeeds.
pub open spec fn p2p_refusal(db: &ChatDb, a: i32, b: i32, name: Seq<char>) -> Option<DbError> {
    if !has_user(db.users@, a) || !has_user(db.users@, b) {
        Some(DbError::NotFound)
    } else if has_shared_p2p(db, a, b) {
        Some(DbError::AlreadyExists)
    } else if a == b || room_named(db.rooms@, name) {
        Some(DbError::Conflict)
    } else if db.next_room_id == i32::MAX {
        Some(DbError::Internal)
    } else {
        None
    }
}

/// The outcome of creating a p2p room between `a` and `b` with key `key`
/// under the name `name`: on a refusal the store is unchanged; else the room
/// is stored last with the next identity, description "private room" and the
/// key's bytes, followed by the two non-admin memberships.
pub open spec fn p2p_created(
    pre: &ChatDb,
    post: &ChatDb,
    a: i32,
    b: i32,
    key: Seq<char>,
    name: Seq<char>,
    r: Result<QChatRooms, DbError>,
) -> bool {
    match p2p_refusal(pre, a, b, name) {
        Some(e) => r == Err::<QChatRooms, DbError>(e) && *post == *pre,
        None => match r {
            Ok(x) => {
                &&& x.chat_room_id == pre.next_room_id
                &&& x.room_name@ == name
                &&& x.room_description@ == "private room"@
                &&& x.chat_room_pubkey@ == vstd::utf8::encode_utf8(key)
                &&& x.room_kind == RoomKind::P2P
                &&& post.rooms@.len() == pre.rooms@.len() + 1
                &&& post.rooms@.drop_last() == pre.rooms@
                &&& same_room(post.rooms@.last(), x)
                &&& post.members@ == pre.members@ + seq![
                    part(x.chat_room_id, a, false),
                    part(x.chat_room_id, b, false),
                ]
                &&& post.next_room_id == pre.next_room_id + 1
                &&& same_accounts(pre, post)
            },
            Err(_) => false,
        },
    }
}

/// Creates the p2p room of the users `a` and `b` under the name `name`,
/// with the key `key`, unless they already share one.
pub fn create_p2p_room(conn: &mut ChatDb, a: i32, b: i32, key: &String, name: String) -> (r:
    Result<QChatRooms, DbError>)
    requires
        old(conn).wf(),
    ensures
        final(conn).wf(),
        p2p_created(&*old(conn), &*final(conn), a, b, key@, name@, r),
{
    if find_user_by_id(&conn.users, a).is_none() || find_user_by_id(&conn.users, b).is_none() {
        return Err(DbError::NotFound);
    }
    if find_shared_p2p(conn, a, b).is_some() {
        return Err(DbError::AlreadyExists);
    }
    if a == b || crate::lookup::find_room_by_name(&conn.rooms, &name).is_some() {
        return Err(DbError::Conflict);
    }
    if conn.next_room_id == i32::MAX {
        return Err(DbError::Internal);
    }
    let ghost pre = *conn;
    let id = conn.next_room_id;
    let row = QChatRooms {
        chat_room_id: id,
        room_name: name,
        room_description: String::from_str("private room"),
        chat_room_pubkey: key.as_str().as_bytes_vec(),
        room_kind: RoomKind::P2P,
    };
    let out = copy_room(&row);
    let ghost added = seq![part(id, a, false), part(id, b, false)];
    proof {
        lemma_push_contains(seq![part(id, a, false)], part(id, b, false));
        assert(seq![part(id, a, false)].push(part(id, b, false)) =~= added);
        lemma_push_contains(Seq::<ChatRoomParticipants>::empty(), part(id, a, false));
        assert(Seq::<ChatRoomParticipants>::empty().push(part(id, a, false)) =~= seq![part(id, a, false)]);
        assert(pair_room(added, id, a, b));
        assert forall|p: i32, q: i32| #[trigger] pair_room(added, id, p, q) implies !has_shared_p2p(&pre, p, q) by {
            assert(added.contains(part(id, p, false)));
            assert(added.contains(part(id, q, false)));
            crate::p2p::lemma_shared_symmetric(&pre, a, b);
        }
        assert(new_room_members_ok(&pre, row, added));
    }
    conn.rooms.push(row);
    conn.members.push(part_of(id, a));
    conn.members.push(part_of(id, b));
    conn.next_room_id = id + 1;
    proof {
        assert(conn.members@ =~= pre.members@ + added);
        assert(conn.rooms@.drop_last() =~= pre.rooms@);
        lemma_add_room_wf(&pre, conn, row, added);
    }
    Ok(out)
}

/// A non-admin membership of `user` in `room`.
fn part_of(room: i32, user: i32) -> (r: ChatRoomParticipants)
    ensures
        r == part(room, user, false),
{
    ChatRoomParticipants { chat_room_id: room, user_id: user, is_admin: false }
}

/// Creates the p2p room of the users `requestor_user` and `acceptor_user`
/// with the key `_chat_room_pubkey`, under a name generated from the current
/// time, unless they already share one.
pub fn add_new_p2p_chat_room(
    _conn: &mut ChatDb,
    requestor_user: i32,
    acceptor_user: i32,
    _chat_room_pubkey: String,
) -> (r: Result<QChatRooms, DbError>)
    requires
        old(_conn).wf(),
    ensures
        final(_conn).wf(),
        exists|t: Seq<char>|
            p2p_created(
                &*old(_conn),
                &*final(_conn),
                requestor_user,
                acceptor_user,
                _chat_room_pubkey@,
                decimal(hash_of(t + "Private Room"@) as nat),
                r,
            ),
{
    let name = p2p_room_name();
    let ghost t = choose|t: Seq<char>| name@ == decimal(hash_of(t + "Private Room"@) as nat);
    let ghost n = name@;
    let r = create_p2p_room(_conn, requestor_user, acceptor_user, &_chat_room_pubkey, name);
    assert(p2p_created(
        &*old(_conn),
        &*_conn,
        requestor_user,
        acceptor_user,
        _chat_room_pubkey@,
        decimal(hash_of(t + "Private Room"@) as nat),
        r,
    ));
    r
}

/// Deletes the p2p room that the users called `remover_username` and
/// `contact_username` share, with its memberships.
pub fn delete_p2p_chat_room(
    _conn: &mut ChatDb,
    remover_username: &String,
    contact_username: &String,
) -> (r: Result<bool, DbError>)
    requires
        old(_conn).wf(),
    ensures
        final(_conn).wf(),
        ({
            let pre = &*old(_conn);
            let post = &*final(_conn);
            let a = user_with_name(pre.users@, remover_username@).user_id;
            let b = user_with_name(pre.users@, contact_username@).user_id;
            if !user_named(pre.users@, remover_username@) || !user_named(pre.users@, contact_username@)
                || !has_shared_p2p(pre, a, b) {
                r == Err::<bool, DbError>(DbError::NotFound) && *post == *pre
            } else {
                let id = shared_p2p_room(pre, a, b).chat_room_id;
                &&& r == Ok::<bool, DbError>(true)
                &&& post.rooms@ == pre.rooms@.filter(keep_room(seq![id]))
                &&& post.members@ == pre.members@.filter(keep_member(seq![id], None))
                &&& post.next_room_id == pre.next_room_id
                &&& same_accounts(pre, post)
            }
        }),
{
    let ka = match find_user_by_name(&_conn.users, remover_username) {
        Some(k) => k,
        None => return Err(DbError::NotFound),
    };
    let kb = match find_user_by_name(&_conn.users, contact_username) {
        Some(k) => k,
        None => return Err(DbError::NotFound),
    };
    let a = _conn.users[ka].user_id;
    let b = _conn.users[kb].user_id;
    proof {
        let us = _conn.users@;
        assert(us.contains(us[ka as int]));
        assert(us.contains(us[kb as int]));
        assert(us[ka as int] == user_with_name(us, remover_username@));
        assert(us[kb as int] == user_with_name(us, contact_username@));
    }
    let k = match find_shared_p2p(_conn, a, b) {
        Some(k) => k,
        None => return Err(DbError::NotFound),
    };
    let id = _conn.rooms[k].chat_room_id;
    let mut dead: Vec<i32> = Vec::new();
    dead.push(id);
    proof {
        assert(dead@ =~= seq![id]);
    }
    _conn.drop_rooms_cascade(&dead, None);
    Ok(true)
}

} // verus!
