//! The store that holds the relations of the chat backend, and the invariant
//! that every operation keeps.
use vstd::prelude::*;
use crate::db_models::{
    part, ChatRoomParticipants, QChatRooms, QSolanaWallet, QTronWallet, QUsers, RoomKind,
    UserProfiles,
};

verus! {

/// The relations of the backend: users and profiles, rooms, memberships and
/// the attached wallets, each in insertion order, with the next identities
/// to hand out.
pub struct ChatDb {
    pub users: Vec<QUsers>,
    pub profiles: Vec<UserProfiles>,
    pub rooms: Vec<QChatRooms>,
    pub members: Vec<ChatRoomParticipants>,
    pub solana_wallets: Vec<QSolanaWallet>,
    pub tron_wallets: Vec<QTronWallet>,
    pub next_user_id: i32,
    pub next_room_id: i32,
    pub next_wallet_id: i32,
}

/// `user` belongs to `room`, as admin or not.
pub open spec fn is_member(ms: Seq<ChatRoomParticipants>, room: i32, user: i32) -> bool {
    ms.contains(part(room, user, false)) || ms.contains(part(room, user, true))
}

/// `user` is an admin of `room`.
pub open spec fn is_admin_in(ms: Seq<ChatRoomParticipants>, room: i32, user: i32) -> bool {
    ms.contains(part(room, user, true))
}

/// The members of `room` are exactly the two distinct users `a` and `b`,
/// neither of them admin.
pub open spec fn pair_room(ms: Seq<ChatRoomParticipants>, room: i32, a: i32, b: i32) -> bool {
    &&& a != b
    &&& ms.contains(part(room, a, false))
    &&& ms.contains(part(room, b, false))
    &&& forall|m: ChatRoomParticipants|
        #![trigger ms.contains(m)]
        ms.contains(m) && m.chat_room_id == room ==> (m.user_id == a || m.user_id == b)
            && !m.is_admin
}

/// Some user of `users` has identity `id`.
pub open spec fn has_user(users: Seq<QUsers>, id: i32) -> bool {
    exists|x: QUsers| #![trigger users.contains(x)] users.contains(x) && x.user_id == id
}

/// Some user of `users` is called `name`.
pub open spec fn user_named(users: Seq<QUsers>, name: Seq<char>) -> bool {
    exists|x: QUsers| #![trigger users.contains(x)] users.contains(x) && x.username@ == name
}

/// Some room of `rooms` has identity `id`.
pub open spec fn has_room(rooms: Seq<QChatRooms>, id: i32) -> bool {
    exists|x: QChatRooms| #![trigger rooms.contains(x)] rooms.contains(x) && x.chat_room_id == id
}

/// Some room of `rooms` has identity `id` and is of kind `kind`.
pub open spec fn has_room_of_kind(rooms: Seq<QChatRooms>, id: i32, kind: RoomKind) -> bool {
    exists|x: QChatRooms|
        #![trigger rooms.contains(x)]
        rooms.contains(x) && x.chat_room_id == id && x.room_kind == kind
}

/// Some room of `rooms` is called `name`.
pub open spec fn room_named(rooms: Seq<QChatRooms>, name: Seq<char>) -> bool {
    exists|x: QChatRooms| #![trigger rooms.contains(x)] rooms.contains(x) && x.room_name@ == name
}

/// `room` is a p2p room that the two distinct users `a` and `b` share.
pub open spec fn shares_p2p(db: &ChatDb, room: QChatRooms, a: i32, b: i32) -> bool {
    &&& a != b
    &&& db.rooms@.contains(room)
    &&& room.room_kind == RoomKind::P2P
    &&& is_member(db.members@, room.chat_room_id, a)
    &&& is_member(db.members@, room.chat_room_id, b)
}

/// `a` and `b` share a p2p room.
pub open spec fn has_shared_p2p(db: &ChatDb, a: i32, b: i32) -> bool {
    exists|x: QChatRooms| #[trigger] shares_p2p(db, x, a, b)
}

/// The p2p room that `a` and `b` share, where there is one.
pub open spec fn shared_p2p_room(db: &ChatDb, a: i32, b: i32) -> QChatRooms {
    choose|x: QChatRooms| #[trigger] shares_p2p(db, x, a, b)
}

/// Two states agree on users, profiles, wallets and the identities of users
/// and wallets to hand out.
pub open spec fn same_accounts(pre: &ChatDb, post: &ChatDb) -> bool {
    &&& post.users@ == pre.users@
    &&& post.profiles@ == pre.profiles@
    &&& post.solana_wallets@ == pre.solana_wallets@
    &&& post.tron_wallets@ == pre.tron_wallets@
    &&& post.next_user_id == pre.next_user_id
    &&& post.next_wallet_id == pre.next_wallet_id
}

impl ChatDb {
    /// Users: identities, usernames and emails are unique, and every identity
    /// is below the next one to hand out.
    pub open spec fn users_wf(&self) -> bool {
        let us = self.users@;
        &&& us.no_duplicates()
        &&& forall|x: QUsers, y: QUsers|
            #![trigger us.contains(x), us.contains(y)]
            us.contains(x) && us.contains(y) ==> {
                &&& x.user_id == y.user_id ==> x == y
                &&& x.username@ == y.username@ ==> x == y
                &&& x.email@ == y.email@ ==> x == y
            }
        &&& forall|x: QUsers|
            #![trigger us.contains(x)]
            us.contains(x) ==> 0 <= x.user_id < self.next_user_id
    }

    /// Rooms: identities and names are unique, and every identity is below
    /// the next one to hand out.
    pub open spec fn rooms_wf(&self) -> bool {
        let rs = self.rooms@;
        &&& rs.no_duplicates()
        &&& forall|x: QChatRooms, y: QChatRooms|
            #![trigger rs.contains(x), rs.contains(y)]
            rs.contains(x) && rs.contains(y) ==> {
                &&& x.chat_room_id == y.chat_room_id ==> x == y
                &&& x.room_name@ == y.room_name@ ==> x == y
            }
        &&& forall|x: QChatRooms|
            #![trigger rs.contains(x)]
            rs.contains(x) ==> 0 <= x.chat_room_id < self.next_room_id
    }

    /// Memberships: a user appears at most once per room, every membership
    /// names a stored room and a stored user, a group has exactly one admin,
    /// a p2p room has exactly two members and no admin, and no two p2p rooms
    /// have the same pair of members.
    pub open spec fn members_wf(&self) -> bool {
        let ms = self.members@;
        let rs = self.rooms@;
        &&& ms.no_duplicates()
        &&& forall|r: i32, u: i32|
            #![trigger ms.contains(part(r, u, false)), ms.contains(part(r, u, true))]
            !(ms.contains(part(r, u, false)) && ms.contains(part(r, u, true)))
        &&& forall|m: ChatRoomParticipants|
            #![trigger ms.contains(m)]
            ms.contains(m) ==> has_room(rs, m.chat_room_id) && has_user(self.users@, m.user_id)
        &&& forall|r: i32, u1: i32, u2: i32|
            #![trigger ms.contains(part(r, u1, true)), ms.contains(part(r, u2, true))]
            ms.contains(part(r, u1, true)) && ms.contains(part(r, u2, true)) ==> u1 == u2
        &&& forall|x: QChatRooms|
            #![trigger rs.contains(x)]
            rs.contains(x) && x.room_kind == RoomKind::Group ==> exists|u: i32|
                is_admin_in(ms, x.chat_room_id, u)
        &&& forall|x: QChatRooms|
            #![trigger rs.contains(x)]
            rs.contains(x) && x.room_kind == RoomKind::P2P ==> exists|a: i32, b: i32|
                pair_room(ms, x.chat_room_id, a, b)
        &&& forall|x: QChatRooms, y: QChatRooms, a: i32, b: i32|
            #![trigger rs.contains(x), rs.contains(y), pair_room(ms, x.chat_room_id, a, b), pair_room(ms, y.chat_room_id, a, b)]
            rs.contains(x) && rs.contains(y) && x.room_kind == RoomKind::P2P && y.room_kind
                == RoomKind::P2P && pair_room(ms, x.chat_room_id, a, b) && pair_room(
                ms,
                y.chat_room_id,
                a,
                b,
            ) ==> x == y
    }

    /// Profiles and wallets: each names a stored user, at most one per user.
    pub open spec fn attachments_wf(&self) -> bool {
        let ps = self.profiles@;
        let sw = self.solana_wallets@;
        let tw = self.tron_wallets@;
        &&& forall|i: int|
            #![trigger ps[i]]
            0 <= i < ps.len() ==> has_user(self.users@, ps[i].user_id)
        &&& forall|i: int, j: int|
            #![trigger ps[i], ps[j]]
            0 <= i < ps.len() && 0 <= j < ps.len() && ps[i].user_id == ps[j].user_id ==> i == j
        &&& forall|i: int|
            #![trigger sw[i]]
            0 <= i < sw.len() ==> has_user(self.users@, sw[i].user_id)
        &&& forall|i: int, j: int|
            #![trigger sw[i], sw[j]]
            0 <= i < sw.len() && 0 <= j < sw.len() && sw[i].user_id == sw[j].user_id ==> i == j
        &&& forall|i: int|
            #![trigger tw[i]]
            0 <= i < tw.len() ==> has_user(self.users@, tw[i].user_id)
        &&& forall|i: int, j: int|
            #![trigger tw[i], tw[j]]
            0 <= i < tw.len() && 0 <= j < tw.len() && tw[i].user_id == tw[j].user_id ==> i == j
    }

    /// The invariant of the store.
    pub open spec fn wf(&self) -> bool {
        &&& self.next_user_id >= 0
        &&& self.next_room_id >= 0
        &&& self.next_wallet_id >= 0
        &&& self.users_wf()
        &&& self.rooms_wf()
        &&& self.members_wf()
        &&& self.attachments_wf()
    }

    /// An empty store.
    pub fn new() -> (r: ChatDb)
        ensures
            r.wf(),
            r.users@.len() == 0,
            r.profiles@.len() == 0,
            r.rooms@.len() == 0,
            r.members@.len() == 0,
            r.solana_wallets@.len() == 0,
            r.tron_wallets@.len() == 0,
            r.next_user_id == 1,
            r.next_room_id == 1,
            r.next_wallet_id == 1,
    {
        ChatDb {
            users: Vec::new(),
            profiles: Vec::new(),
            rooms: Vec::new(),
            members: Vec::new(),
            solana_wallets: Vec::new(),
            tron_wallets: Vec::new(),
            next_user_id: 1,
            next_room_id: 1,
            next_wallet_id: 1,
        }
    }
}

} // verus!
