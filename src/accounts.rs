//! Accounts: users and their profiles, and the teardown that removes a user
//! together with their rooms, memberships, profile and wallets.
use vstd::prelude::*;
use crate::lookup::{copy_user, find_user_by_email, find_user_by_name, membership_of, user_emailed, user_with_name};
use crate::db_models::{part, ChatRoomParticipants, DbError, QChatRooms, QSolanaWallet, QTronWallet, QUsers, RoomKind, UserProfiles, Users};
use crate::repo::{cascade_allowed, keep_member, keep_room};
use crate::seq_facts::{lemma_push_contains, lemma_remove_contains, lemma_update_contains};
use crate::store::{has_user, is_admin_in, is_member, user_named, ChatDb};

verus! {

/// The room `id` goes when the user `u` is removed: a p2p room of `u`, or a
/// group that `u` administers.
pub open spec fn tears_down(db: &ChatDb, u: i32, id: i32) -> bool {
    exists|x: QChatRooms|
        #![trigger db.rooms@.contains(x)]
        db.rooms@.contains(x) && x.chat_room_id == id && ((x.room_kind == RoomKind::P2P && is_member(db.members@, id, u)) || (x.room_kind == RoomKind::Group && is_admin_in(db.members@, id, u)))
}

/// The user `u` has a profile among `ps`.
pub open spec fn has_profile(ps: Seq<UserProfiles>, u: i32) -> bool {
    exists|i: int| 0 <= i < ps.len() && ps[i].user_id == u
}

/// The position of the profile of `u` among `ps`.
pub open spec fn profile_index(ps: Seq<UserProfiles>, u: i32) -> int {
    choose|i: int| 0 <= i < ps.len() && ps[i].user_id == u
}

/// `ps` without the profile of `u`.
pub open spec fn without_profile(ps: Seq<UserProfiles>, u: i32) -> Seq<UserProfiles> {
    if has_profile(ps, u) { ps.remove(profile_index(ps, u)) } else { ps }
}

/// `ws` without the Solana wallet of `u`.
pub open spec fn without_solana(ws: Seq<QSolanaWallet>, u: i32) -> Seq<QSolanaWallet> {
    if exists|i: int| 0 <= i < ws.len() && ws[i].user_id == u {
        ws.remove(choose|i: int| 0 <= i < ws.len() && ws[i].user_id == u)
    } else {
        ws
    }
}

/// `ws` without the Tron wallet of `u`.
pub open spec fn without_tron(ws: Seq<QTronWallet>, u: i32) -> Seq<QTronWallet> {
    if exists|i: int| 0 <= i < ws.len() && ws[i].user_id == u {
        ws.remove(choose|i: int| 0 <= i < ws.len() && ws[i].user_id == u)
    } else {
        ws
    }
}

/// The position of the user called `name` among `us`.
pub open spec fn user_index_named(us: Seq<QUsers>, name: Seq<char>) -> int {
    choose|i: int| 0 <= i < us.len() && us[i].username@ == name
}

/// Removes the profile of `u`, where there is one.
fn drop_profile(ps: &mut Vec<UserProfiles>, u: i32)
    requires
        forall|i: int, j: int|
            #![trigger old(ps)@[i], old(ps)@[j]]
            0 <= i < old(ps)@.len() && 0 <= j < old(ps)@.len() && old(ps)@[i].user_id == old(ps)@[j].user_id ==> i == j,
    ensures
        final(ps)@ == without_profile(old(ps)@, u),
{
    let mut i: usize = 0;
    while i < ps.len()
        invariant
            i <= ps@.len(),
            ps@ == old(ps)@,
            forall|a: int, b: int|
                #![trigger ps@[a], ps@[b]]
                0 <= a < ps@.len() && 0 <= b < ps@.len() && ps@[a].user_id == ps@[b].user_id ==> a == b,
            forall|j: int| 0 <= j < i ==> #[trigger] ps@[j].user_id != u,
        decreases ps@.len() - i,
    {
        if ps[i].user_id == u {
            proof {
                assert(has_profile(ps@, u));
                let k = profile_index(ps@, u);
                assert(ps@[k].user_id == ps@[i as int].user_id);
            }
            let _ = ps.remove(i);
            return;
        }
        i = i + 1;
    }
}

/// Removes the Solana wallet of `u`, where there is one.
fn drop_solana(ws: &mut Vec<QSolanaWallet>, u: i32)
    requires
        forall|i: int, j: int|
            #![trigger old(ws)@[i], old(ws)@[j]]
            0 <= i < old(ws)@.len() && 0 <= j < old(ws)@.len() && old(ws)@[i].user_id == old(ws)@[j].user_id ==> i == j,
    ensures
        final(ws)@ == without_solana(old(ws)@, u),
{
    let mut i: usize = 0;
    while i < ws.len()
        invariant
            i <= ws@.len(),
            ws@ == old(ws)@,
            forall|a: int, b: int|
                #![trigger ws@[a], ws@[b]]
                0 <= a < ws@.len() && 0 <= b < ws@.len() && ws@[a].user_id == ws@[b].user_id ==> a == b,
            forall|j: int| 0 <= j < i ==> #[trigger] ws@[j].user_id != u,
        decreases ws@.len() - i,
    {
        if ws[i].user_id == u {
            proof {
                assert(ws@[i as int].user_id == u);
                let k = choose|k: int| 0 <= k < ws@.len() && ws@[k].user_id == u;
                assert(ws@[k].user_id == ws@[i as int].user_id);
            }
            let _ = ws.remove(i);
            return;
        }
        i = i + 1;
    }
}

/// Removes the Tron wallet of `u`, where there is one.
fn drop_tron(ws: &mut Vec<QTronWallet>, u: i32)
    requires
        forall|i: int, j: int|
            #![trigger old(ws)@[i], old(ws)@[j]]
            0 <= i < old(ws)@.len() && 0 <= j < old(ws)@.len() && old(ws)@[i].user_id == old(ws)@[j].user_id ==> i == j,
    ensures
        final(ws)@ == without_tron(old(ws)@, u),
{
    let mut i: usize = 0;
    while i < ws.len()
        invariant
            i <= ws@.len(),
            ws@ == old(ws)@,
            forall|a: int, b: int|
                #![trigger ws@[a], ws@[b]]
                0 <= a < ws@.len() && 0 <= b < ws@.len() && ws@[a].user_id == ws@[b].user_id ==> a == b,
            forall|j: int| 0 <= j < i ==> #[trigger] ws@[j].user_id != u,
        decreases ws@.len() - i,
    {
        if ws[i].user_id == u {
            proof {
                assert(ws@[i as int].user_id == u);
                let k = choose|k: int| 0 <= k < ws@.len() && ws@[k].user_id == u;
                assert(ws@[k].user_id == ws@[i as int].user_id);
            }
            let _ = ws.remove(i);
            return;
        }
        i = i + 1;
    }
}

/// The room `x` goes when the user `u` is removed.
pub open spec fn doomed_row(db: &ChatDb, u: i32, x: QChatRooms) -> bool {
    (x.room_kind == RoomKind::P2P && is_member(db.members@, x.chat_room_id, u)) || (x.room_kind
        == RoomKind::Group && is_admin_in(db.members@, x.chat_room_id, u))
}

/// The identities of the rooms that go when the user `u` is removed.
fn doomed_rooms(db: &ChatDb, u: i32) -> (r: Vec<i32>)
    requires
        db.wf(),
    ensures
        forall|id: i32| #[trigger] r@.contains(id) <==> tears_down(db, u, id),
{
    let mut dead: Vec<i32> = Vec::new();
    let mut i: usize = 0;
    while i < db.rooms.len()
        invariant
            db.wf(),
            i <= db.rooms@.len(),
            forall|id: i32|
                #[trigger] dead@.contains(id) <==> exists|j: int|
                    0 <= j < i && #[trigger] db.rooms@[j].chat_room_id == id && doomed_row(db, u, db.rooms@[j]),
        decreases db.rooms@.len() - i,
    {
        let id = db.rooms[i].chat_room_id;
        let m = membership_of(&db.members, id, u);
        let goes = match db.rooms[i].room_kind {
            RoomKind::P2P => m.is_some(),
            RoomKind::Group => match m {
                Some(adm) => adm,
                None => false,
            },
        };
        proof {
            let x = db.rooms@[i as int];
            if x.room_kind == RoomKind::Group && is_admin_in(db.members@, id, u) && !goes {
                assert(db.members@.contains(part(id, u, false)));
            }
            assert(goes == doomed_row(db, u, x));
            lemma_push_contains(dead@, id);
        }
        let ghost before = dead@;
        if goes {
            dead.push(id);
        }
        proof {
            assert forall|v: i32| #[trigger] dead@.contains(v) <==> exists|j: int|
                0 <= j < i + 1 && #[trigger] db.rooms@[j].chat_room_id == v && doomed_row(db, u, db.rooms@[j]) by {
                if dead@.contains(v) && !before.contains(v) {
                    assert(db.rooms@[i as int].chat_room_id == v);
                }
                if exists|j: int| 0 <= j < i + 1 && #[trigger] db.rooms@[j].chat_room_id == v && doomed_row(db, u, db.rooms@[j]) {
                    let j = choose|j: int| 0 <= j < i + 1 && #[trigger] db.rooms@[j].chat_room_id == v && doomed_row(db, u, db.rooms@[j]);
                    if j < i {
                        assert(before.contains(v));
                    }
                }
            }
        }
        i = i + 1;
    }
    proof {
        assert forall|id: i32| #[trigger] dead@.contains(id) <==> tears_down(db, u, id) by {
            if dead@.contains(id) {
                let j = choose|j: int| 0 <= j < db.rooms@.len() && #[trigger] db.rooms@[j].chat_room_id == id && doomed_row(db, u, db.rooms@[j]);
                assert(db.rooms@.contains(db.rooms@[j]));
            }
            if tears_down(db, u, id) {
                let x = choose|x: QChatRooms| db.rooms@.contains(x) && x.chat_room_id == id && ((x.room_kind == RoomKind::P2P && is_member(db.members@, id, u)) || (x.room_kind == RoomKind::Group && is_admin_in(db.members@, id, u)));
                let j = choose|j: int| 0 <= j < db.rooms@.len() && db.rooms@[j] == x;
                assert(db.rooms@[j].chat_room_id == id && doomed_row(db, u, db.rooms@[j]));
            }
        }
    }
    dead
}

/// Removing one position of a sequence keyed uniquely by `key` shifts the
/// later elements down by one and keeps the keys unique.
proof fn lemma_keyed_remove<T>(s: Seq<T>, key: spec_fn(T) -> i32, j: int)
    requires
        0 <= j < s.len(),
        forall|a: int, b: int| #![trigger s[a], s[b]] 0 <= a < s.len() && 0 <= b < s.len() && key(s[a]) == key(s[b]) ==> a == b,
    ensures
        s.remove(j).len() == s.len() - 1,
        forall|i: int| 0 <= i < s.remove(j).len() ==> #[trigger] s.remove(j)[i] == s[if i < j { i } else { i + 1 }],
        forall|i: int| 0 <= i < s.remove(j).len() ==> key(#[trigger] s.remove(j)[i]) != key(s[j]),
        forall|a: int, b: int| #![trigger s.remove(j)[a], s.remove(j)[b]] 0 <= a < s.remove(j).len() && 0 <= b < s.remove(j).len() && key(s.remove(j)[a]) == key(s.remove(j)[b]) ==> a == b,
{
    let t = s.remove(j);
    assert forall|i: int| 0 <= i < t.len() implies #[trigger] t[i] == s[if i < j { i } else { i + 1 }] by {}
    assert forall|i: int| 0 <= i < t.len() implies key(#[trigger] t[i]) != key(s[j]) by {
        let i2 = if i < j { i } else { i + 1 };
        assert(t[i] == s[i2]);
    }
    assert forall|a: int, b: int| #![trigger t[a], t[b]] 0 <= a < t.len() && 0 <= b < t.len() && key(t[a]) == key(t[b]) implies a == b by {
        let a2 = if a < j { a } else { a + 1 };
        let b2 = if b < j { b } else { b + 1 };
        assert(t[a] == s[a2]);
        assert(t[b] == s[b2]);
    }
}

/// Removing a user who is in no room, with their profile and wallets, keeps
/// the invariant.
proof fn lemma_drop_user_wf(mid: &ChatDb, post: &ChatDb, k: int)
    requires
        mid.wf(),
        0 <= k < mid.users@.len(),
        forall|m: ChatRoomParticipants| #[trigger] mid.members@.contains(m) ==> m.user_id != mid.users@[k].user_id,
        post.users@ == mid.users@.remove(k),
        post.profiles@ == without_profile(mid.profiles@, mid.users@[k].user_id),
        post.solana_wallets@ == without_solana(mid.solana_wallets@, mid.users@[k].user_id),
        post.tron_wallets@ == without_tron(mid.tron_wallets@, mid.users@[k].user_id),
        post.rooms@ == mid.rooms@,
        post.members@ == mid.members@,
        post.next_user_id == mid.next_user_id,
        post.next_room_id == mid.next_room_id,
        post.next_wallet_id == mid.next_wallet_id,
    ensures
        post.wf(),
{
    let us = mid.users@;
    let gone = us[k];
    let u = gone.user_id;
    lemma_remove_contains(us, k);
    assert(us.contains(gone));
    assert forall|id: i32| id != u && #[trigger] has_user(us, id) implies has_user(post.users@, id) by {
        let x = choose|x: QUsers| us.contains(x) && x.user_id == id;
        assert(post.users@.contains(x));
    }
    assert forall|m: ChatRoomParticipants| #[trigger] post.members@.contains(m) implies has_user(post.users@, m.user_id) by {
        assert(has_user(us, m.user_id));
    }
    let ps = mid.profiles@;
    if has_profile(ps, u) {
        let j = profile_index(ps, u);
        lemma_keyed_remove(ps, |p: UserProfiles| p.user_id, j);
        assert forall|i: int| 0 <= i < post.profiles@.len() implies has_user(post.users@, #[trigger] post.profiles@[i].user_id) by {
            let i2 = if i < j { i } else { i + 1 };
            assert(post.profiles@[i] == ps[i2]);
            assert(has_user(us, ps[i2].user_id));
        }
    } else {
        assert forall|i: int| 0 <= i < ps.len() implies has_user(post.users@, #[trigger] ps[i].user_id) by {
            assert(has_user(us, ps[i].user_id));
        }
    }
    let sw = mid.solana_wallets@;
    if exists|i: int| 0 <= i < sw.len() && sw[i].user_id == u {
        let j = choose|i: int| 0 <= i < sw.len() && sw[i].user_id == u;
        lemma_keyed_remove(sw, |w: QSolanaWallet| w.user_id, j);
        assert forall|i: int| 0 <= i < post.solana_wallets@.len() implies has_user(post.users@, #[trigger] post.solana_wallets@[i].user_id) by {
            let i2 = if i < j { i } else { i + 1 };
            assert(post.solana_wallets@[i] == sw[i2]);
            assert(has_user(us, sw[i2].user_id));
        }
    } else {
        assert forall|i: int| 0 <= i < sw.len() implies has_user(post.users@, #[trigger] sw[i].user_id) by {
            assert(has_user(us, sw[i].user_id));
        }
    }
    let tw = mid.tron_wallets@;
    if exists|i: int| 0 <= i < tw.len() && tw[i].user_id == u {
        let j = choose|i: int| 0 <= i < tw.len() && tw[i].user_id == u;
        lemma_keyed_remove(tw, |w: QTronWallet| w.user_id, j);
        assert forall|i: int| 0 <= i < post.tron_wallets@.len() implies has_user(post.users@, #[trigger] post.tron_wallets@[i].user_id) by {
            let i2 = if i < j { i } else { i + 1 };
            assert(post.tron_wallets@[i] == tw[i2]);
            assert(has_user(us, tw[i2].user_id));
        }
    } else {
        assert forall|i: int| 0 <= i < tw.len() implies has_user(post.users@, #[trigger] tw[i].user_id) by {
            assert(has_user(us, tw[i].user_id));
        }
    }
}

/// The rooms that survive removing the user `u`.
pub open spec fn rooms_after_teardown(db: &ChatDb, u: i32) -> Seq<QChatRooms> {
    db.rooms@.filter(|x: QChatRooms| !tears_down(db, u, x.chat_room_id))
}

/// The memberships that survive removing the user `u`.
pub open spec fn members_after_teardown(db: &ChatDb, u: i32) -> Seq<ChatRoomParticipants> {
    db.members@.filter(|m: ChatRoomParticipants| !tears_down(db, u, m.chat_room_id) && m.user_id != u)
}

/// The outcome of removing the user called `name`: where there is none, the
/// store is unchanged; else their p2p rooms and the groups they administer go
/// with all of their memberships, they leave every other group, and their
/// profile, their wallets and their row go.
pub open spec fn user_deleted(pre: &ChatDb, post: &ChatDb, name: Seq<char>, r: Result<bool, DbError>) -> bool {
    if !user_named(pre.users@, name) {
        r == Err::<bool, DbError>(DbError::NotFound) && *post == *pre
    } else {
        let u = user_with_name(pre.users@, name).user_id;
        &&& r == Ok::<bool, DbError>(true)
        &&& post.rooms@ == rooms_after_teardown(pre, u)
        &&& post.members@ == members_after_teardown(pre, u)
        &&& post.profiles@ == without_profile(pre.profiles@, u)
        &&& post.solana_wallets@ == without_solana(pre.solana_wallets@, u)
        &&& post.tron_wallets@ == without_tron(pre.tron_wallets@, u)
        &&& post.users@ == pre.users@.remove(user_index_named(pre.users@, name))
        &&& post.next_user_id == pre.next_user_id
        &&& post.next_room_id == pre.next_room_id
        &&& post.next_wallet_id == pre.next_wallet_id
    }
}

/// Removes the user called `_username`: deletes each of their p2p rooms
/// entirely, deletes each group they administer, leaves every other group,
/// then removes their profile, their wallets and their row. All of it
/// happens, or nothing does.
pub fn delete_user(conn: &mut ChatDb, _username: &String) -> (r: Result<bool, DbError>)
    requires
        old(conn).wf(),
    ensures
        final(conn).wf(),
        user_deleted(&*old(conn), &*final(conn), _username@, r),
{
    let k = match find_user_by_name(&conn.users, _username) {
        Some(k) => k,
        None => return Err(DbError::NotFound),
    };
    let u = conn.users[k].user_id;
    let ghost pre = *conn;
    proof {
        let us = conn.users@;
        assert(us.contains(us[k as int]));
        assert(us[k as int] == user_with_name(us, _username@));
        let i = user_index_named(us, _username@);
        assert(us.contains(us[i]));
        assert(i == k);
    }
    let dead = doomed_rooms(conn, u);
    proof {
        assert forall|x: QChatRooms, g: i32|
            #![trigger pre.rooms@.contains(x), is_member(pre.members@, x.chat_room_id, g)]
            pre.rooms@.contains(x) && !dead@.contains(x.chat_room_id) && Some(u) == Some(g)
            implies if x.room_kind == RoomKind::Group {
                !is_admin_in(pre.members@, x.chat_room_id, g)
            } else {
                !is_member(pre.members@, x.chat_room_id, g)
            } by {
            assert(!tears_down(&pre, u, x.chat_room_id));
        }
        assert(cascade_allowed(&pre, dead@, Some(u)));
    }
    conn.drop_rooms_cascade(&dead, Some(u));
    proof {
        assert(keep_room(dead@) =~= |x: QChatRooms| !tears_down(&pre, u, x.chat_room_id));
        assert(keep_member(dead@, Some(u)) =~= |m: ChatRoomParticipants| !tears_down(&pre, u, m.chat_room_id) && m.user_id != u);
        crate::seq_facts::lemma_filter_all(pre.members@, keep_member(dead@, Some(u)));
    }
    let ghost mid = *conn;
    drop_profile(&mut conn.profiles, u);
    drop_solana(&mut conn.solana_wallets, u);
    drop_tron(&mut conn.tron_wallets, u);
    let _ = conn.users.remove(k);
    proof {
        lemma_drop_user_wf(&mid, conn, k as int);
    }
    Ok(true)
}

/// A copy of an optional text.
fn copy_text(t: &Option<String>) -> (r: Option<String>)
    ensures
        r == *t,
{
    match t {
        Some(s) => Some(s.clone()),
        None => None,
    }
}

/// A copy of a profile.
pub(crate) fn copy_profile(p: &UserProfiles) -> (r: UserProfiles)
    ensures
        r == *p,
{
    UserProfiles { user_id: p.user_id, bio: copy_text(&p.bio), profile_picture: copy_text(&p.profile_picture) }
}

/// Why registering a user called `name` with email `email` fails, or `None`.
pub open spec fn new_user_refusal(db: &ChatDb, name: Seq<char>, email: Seq<char>) -> Option<DbError> {
    if user_named(db.users@, name) || user_emailed(db.users@, email) {
        Some(DbError::Conflict)
    } else if db.next_user_id == i32::MAX {
        Some(DbError::Internal)
    } else {
        None
    }
}

/// Registers a user with the credentials `user_credits` and the profile
/// `user_profile`, which is bound to the new user's identity.
pub fn add_new_user(conn: &mut ChatDb, user_credits: &Users, user_profile: &mut UserProfiles) -> (r: Result<QUsers, DbError>)
    requires
        old(conn).wf(),
    ensures
        final(conn).wf(),
        ({
            let pre = &*old(conn);
            let post = &*final(conn);
            match new_user_refusal(pre, user_credits.username@, user_credits.email@) {
                Some(e) => r == Err::<QUsers, DbError>(e) && *post == *pre && *final(user_profile) == *old(user_profile),
                None => match r {
                    Ok(x) => {
                        &&& x.user_id == pre.next_user_id
                        &&& x.username@ == user_credits.username@
                        &&& x.email@ == user_credits.email@
                        &&& x.password@ == user_credits.password@
                        &&& post.users@ == pre.users@.push(x)
                        &&& *final(user_profile) == UserProfiles { user_id: x.user_id, ..*old(user_profile) }
                        &&& post.profiles@ == pre.profiles@.push(*final(user_profile))
                        &&& post.next_user_id == pre.next_user_id + 1
                        &&& post.rooms@ == pre.rooms@
                        &&& post.members@ == pre.members@
                        &&& post.solana_wallets@ == pre.solana_wallets@
                        &&& post.tron_wallets@ == pre.tron_wallets@
                        &&& post.next_room_id == pre.next_room_id
                        &&& post.next_wallet_id == pre.next_wallet_id
                    },
                    Err(_) => false,
                },
            }
        }),
{
    if find_user_by_name(&conn.users, &user_credits.username).is_some() || find_user_by_email(&conn.users, &user_credits.email).is_some() {
        return Err(DbError::Conflict);
    }
    if conn.next_user_id == i32::MAX {
        return Err(DbError::Internal);
    }
    let ghost pre = *conn;
    let id = conn.next_user_id;
    let row = QUsers {
        user_id: id,
        username: user_credits.username.clone(),
        email: user_credits.email.clone(),
        password: user_credits.password.clone(),
    };
    let out = copy_user(&row);
    user_profile.user_id = id;
    let p = copy_profile(user_profile);
    proof {
        let us = pre.users@;
        lemma_push_contains(us, row);
        assert(!us.contains(row));
        let ps = pre.profiles@;
        assert forall|i: int| 0 <= i < ps.len() implies #[trigger] ps[i].user_id != id by {
            let x = choose|x: QUsers| us.contains(x) && x.user_id == ps[i].user_id;
        }
    }
    conn.users.push(row);
    conn.profiles.push(p);
    conn.next_user_id = id + 1;
    proof {
        let us = pre.users@;
        let nus = conn.users@;
        assert forall|v: i32| #[trigger] has_user(us, v) implies has_user(nus, v) by {
            let x = choose|x: QUsers| us.contains(x) && x.user_id == v;
            assert(nus.contains(x));
        }
        assert(nus.contains(row));
        assert(has_user(nus, id));
        let ps = conn.profiles@;
        assert forall|i: int| 0 <= i < ps.len() implies has_user(nus, #[trigger] ps[i].user_id) by {
            if i < pre.profiles@.len() {
                assert(ps[i] == pre.profiles@[i]);
            }
        }
        assert forall|i: int, j: int|
            #![trigger ps[i], ps[j]]
            0 <= i < ps.len() && 0 <= j < ps.len() && ps[i].user_id == ps[j].user_id implies i == j by {
            if i < pre.profiles@.len() {
                assert(ps[i] == pre.profiles@[i]);
            }
            if j < pre.profiles@.len() {
                assert(ps[j] == pre.profiles@[j]);
            }
        }
        assert forall|m: ChatRoomParticipants| #[trigger] conn.members@.contains(m) implies has_user(nus, m.user_id) by {
            assert(has_user(us, m.user_id));
        }
        let sw = conn.solana_wallets@;
        assert forall|i: int| 0 <= i < sw.len() implies has_user(nus, #[trigger] sw[i].user_id) by {
            assert(has_user(us, sw[i].user_id));
        }
        let tw = conn.tron_wallets@;
        assert forall|i: int| 0 <= i < tw.len() implies has_user(nus, #[trigger] tw[i].user_id) by {
            assert(has_user(us, tw[i].user_id));
        }
    }
    Ok(out)
}

/// Why replacing the credentials of the user called `old_name` by a name
/// `name` and email `email` fails, checked in this order, or `None`.
pub open spec fn credits_refusal(db: &ChatDb, old_name: Seq<char>, name: Seq<char>, email: Seq<char>) -> Option<DbError> {
    let me = user_with_name(db.users@, old_name);
    if !user_named(db.users@, old_name) {
        Some(DbError::NotFound)
    } else if name != old_name && user_named(db.users@, name) {
        Some(DbError::Conflict)
    } else if user_emailed(db.users@, email) && crate::lookup::user_with_email(db.users@, email) != me {
        Some(DbError::Conflict)
    } else {
        None
    }
}

/// Replaces the username, email and password of the user called
/// `old_username`; the identity stays.
pub fn update_user_credits(conn: &mut ChatDb, old_username: &String, new_user_credits: &Users) -> (r: Result<QUsers, DbError>)
    requires
        old(conn).wf(),
    ensures
        final(conn).wf(),
        ({
            let pre = &*old(conn);
            let post = &*final(conn);
            match credits_refusal(pre, old_username@, new_user_credits.username@, new_user_credits.email@) {
                Some(e) => r == Err::<QUsers, DbError>(e) && *post == *pre,
                None => match r {
                    Ok(x) => {
                        let k = user_index_named(pre.users@, old_username@);
                        &&& x.user_id == pre.users@[k].user_id
                        &&& x.username@ == new_user_credits.username@
                        &&& x.email@ == new_user_credits.email@
                        &&& x.password@ == new_user_credits.password@
                        &&& post.users@ == pre.users@.update(k, x)
                        &&& post.profiles@ == pre.profiles@
                        &&& post.rooms@ == pre.rooms@
                        &&& post.members@ == pre.members@
                        &&& post.solana_wallets@ == pre.solana_wallets@
                        &&& post.tron_wallets@ == pre.tron_wallets@
                        &&& post.next_user_id == pre.next_user_id
                        &&& post.next_room_id == pre.next_room_id
                        &&& post.next_wallet_id == pre.next_wallet_id
                    },
                    Err(_) => false,
                },
            }
        }),
{
    let k = match find_user_by_name(&conn.users, old_username) {
        Some(k) => k,
        None => return Err(DbError::NotFound),
    };
    proof {
        let us = conn.users@;
        assert(us.contains(us[k as int]));
        assert(us[k as int] == user_with_name(us, old_username@));
        let i = user_index_named(us, old_username@);
        assert(us.contains(us[i]));
        assert(i == k);
    }
    if new_user_credits.username != *old_username && find_user_by_name(&conn.users, &new_user_credits.username).is_some() {
        return Err(DbError::Conflict);
    }
    match find_user_by_email(&conn.users, &new_user_credits.email) {
        Some(j) => {
            proof {
                let us = conn.users@;
                assert(us.contains(us[j as int]));
                assert(us[j as int] == crate::lookup::user_with_email(us, new_user_credits.email@));
            }
            if j != k {
                proof {
                    let us = conn.users@;
                    assert(us[j as int] != us[k as int]);
                }
                return Err(DbError::Conflict);
            }
        },
        None => {},
    }
    let ghost pre = *conn;
    let id = conn.users[k].user_id;
    let row = QUsers {
        user_id: id,
        username: new_user_credits.username.clone(),
        email: new_user_credits.email.clone(),
        password: new_user_credits.password.clone(),
    };
    let out = copy_user(&row);
    let _ = conn.users.remove(k);
    conn.users.insert(k, row);
    proof {
        let us = pre.users@;
        let nus = conn.users@;
        assert(nus =~= us.update(k as int, row));
        let was = us[k as int];
        assert(us.contains(was));
        lemma_update_contains(us, k as int, row);
        if us.contains(row) {
            assert(row == was);
        }
        assert forall|x: QUsers| #[trigger] nus.contains(x) implies x == row || (us.contains(x) && x.user_id != id) by {
            if x != row {
                assert(us.contains(x) && x != was);
            }
        }
        assert forall|v: i32| #[trigger] has_user(us, v) implies has_user(nus, v) by {
            let x = choose|x: QUsers| us.contains(x) && x.user_id == v;
            if x == was {
                assert(nus.contains(row));
            } else {
                assert(nus.contains(x));
            }
        }
        assert forall|m: ChatRoomParticipants| #[trigger] conn.members@.contains(m) implies has_user(nus, m.user_id) by {
            assert(has_user(us, m.user_id));
        }
        let ps = conn.profiles@;
        assert forall|i: int| 0 <= i < ps.len() implies has_user(nus, #[trigger] ps[i].user_id) by {
            assert(has_user(us, ps[i].user_id));
        }
        let sw = conn.solana_wallets@;
        assert forall|i: int| 0 <= i < sw.len() implies has_user(nus, #[trigger] sw[i].user_id) by {
            assert(has_user(us, sw[i].user_id));
        }
        let tw = conn.tron_wallets@;
        assert forall|i: int| 0 <= i < tw.len() implies has_user(nus, #[trigger] tw[i].user_id) by {
            assert(has_user(us, tw[i].user_id));
        }
    }
    Ok(out)
}

/// Replaces the bio and picture of the profile of the user called
/// `old_username` by those of `user_profile`, which is bound to that user.
pub fn update_user_profile(conn: &mut ChatDb, old_username: &String, user_profile: &mut UserProfiles) -> (r: Result<UserProfiles, DbError>)
    requires
        old(conn).wf(),
    ensures
        final(conn).wf(),
        ({
            let pre = &*old(conn);
            let post = &*final(conn);
            let u = user_with_name(pre.users@, old_username@).user_id;
            if !user_named(pre.users@, old_username@) || !has_profile(pre.profiles@, u) {
                r == Err::<UserProfiles, DbError>(DbError::NotFound) && *post == *pre && *final(user_profile) == *old(user_profile)
            } else {
                &&& *final(user_profile) == UserProfiles { user_id: u, ..*old(user_profile) }
                &&& r == Ok::<UserProfiles, DbError>(*final(user_profile))
                &&& post.profiles@ == pre.profiles@.update(profile_index(pre.profiles@, u), *final(user_profile))
                &&& post.users@ == pre.users@
                &&& post.rooms@ == pre.rooms@
                &&& post.members@ == pre.members@
                &&& post.solana_wallets@ == pre.solana_wallets@
                &&& post.tron_wallets@ == pre.tron_wallets@
                &&& post.next_user_id == pre.next_user_id
                &&& post.next_room_id == pre.next_room_id
                &&& post.next_wallet_id == pre.next_wallet_id
            }
        }),
{
    let k = match find_user_by_name(&conn.users, old_username) {
        Some(k) => k,
        None => return Err(DbError::NotFound),
    };
    let u = conn.users[k].user_id;
    proof {
        let us = conn.users@;
        assert(us.contains(us[k as int]));
        assert(us[k as int] == user_with_name(us, old_username@));
    }
    let i = match find_profile(&conn.profiles, u) {
        Some(i) => i,
        None => return Err(DbError::NotFound),
    };
    let ghost pre = *conn;
    proof {
        assert(has_profile(pre.profiles@, u));
        let j = profile_index(pre.profiles@, u);
        assert(pre.profiles@[j].user_id == pre.profiles@[i as int].user_id);
    }
    user_profile.user_id = u;
    let p = copy_profile(user_profile);
    let out = copy_profile(user_profile);
    let _ = conn.profiles.remove(i);
    conn.profiles.insert(i, p);
    proof {
        let ps = pre.profiles@;
        let nps = conn.profiles@;
        assert(nps =~= ps.update(i as int, p));
        assert forall|a: int| 0 <= a < nps.len() implies has_user(conn.users@, #[trigger] nps[a].user_id) by {
            assert(has_user(conn.users@, ps[a].user_id));
        }
        assert forall|a: int, b: int|
            #![trigger nps[a], nps[b]]
            0 <= a < nps.len() && 0 <= b < nps.len() && nps[a].user_id == nps[b].user_id implies a == b by {
            assert(nps[a].user_id == ps[a].user_id);
            assert(nps[b].user_id == ps[b].user_id);
        }
        assert(pre.members_wf());
        assert(conn.members@ == pre.members@ && conn.rooms@ == pre.rooms@ && conn.users@ == pre.users@);
        assert(conn.members_wf());
    }
    Ok(out)
}

/// Position of the profile of `u`.
pub(crate) fn find_profile(ps: &Vec<UserProfiles>, u: i32) -> (r: Option<usize>)
    ensures
        match r {
            Some(k) => k < ps@.len() && ps@[k as int].user_id == u && has_profile(ps@, u),
            None => !has_profile(ps@, u),
        },
{
    let mut i: usize = 0;
    while i < ps.len()
        invariant
            i <= ps@.len(),
            forall|j: int| 0 <= j < i ==> #[trigger] ps@[j].user_id != u,
        decreases ps@.len() - i,
    {
        if ps[i].user_id == u {
            return Some(i);
        }
        i = i + 1;
    }
    None
}

} // verus!
