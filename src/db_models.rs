//! Rows of the chat store and the error kinds of its operations.
use vstd::prelude::*;

verus! {

/// Whether a room is a peer-to-peer chat or a group chat.
#[derive(PartialEq, Eq, Structural, Clone, Copy, Debug)]
pub enum RoomKind {
    P2P,
    Group,
}

/// The tagged error that every operation of the store returns.
#[derive(PartialEq, Eq, Structural, Clone, Copy, Debug)]
pub enum DbError {
    /// The entity addressed does not exist.
    NotFound,
    /// A pair of users already shares a p2p room, or a user is already in a room.
    AlreadyExists,
    /// A uniqueness constraint would be broken (a name, a membership).
    Conflict,
    /// The caller is not allowed to perform the mutation.
    PermissionDenied,
    /// The store cannot assign another identity.
    Internal,
}

/// Credentials of a user that is about to be inserted.
#[derive(Debug)]
pub struct Users {
    pub username: String,
    pub email: String,
    pub password: String,
}

/// A stored user, with the identity the store assigned.
#[derive(Debug)]
pub struct QUsers {
    pub user_id: i32,
    pub username: String,
    pub email: String,
    pub password: String,
}

/// The profile of a user.
#[derive(Debug)]
pub struct UserProfiles {
    pub user_id: i32,
    pub bio: Option<String>,
    pub profile_picture: Option<String>,
}

/// What a caller supplies to create a group room.
#[derive(Debug)]
pub struct ChatRooms {
    pub room_name: String,
    pub room_description: String,
    pub chat_room_pubkey: Vec<u8>,
}

/// The editable part of a group room.
#[derive(Debug)]
pub struct UpdatableChatRooms {
    pub room_name: String,
    pub room_description: String,
}

/// A stored room.
#[derive(Debug)]
pub struct QChatRooms {
    pub chat_room_id: i32,
    pub room_name: String,
    pub room_description: String,
    pub chat_room_pubkey: Vec<u8>,
    pub room_kind: RoomKind,
}

/// A membership: a user in a room, with the admin flag.
#[derive(PartialEq, Eq, Structural, Clone, Copy, Debug)]
pub struct ChatRoomParticipants {
    pub chat_room_id: i32,
    pub user_id: i32,
    pub is_admin: bool,
}

/// A Solana wallet that is about to be attached to a user.
#[derive(Debug)]
pub struct SolanaWallet {
    pub user_id: i32,
    pub wallet_addr: Vec<u8>,
}

/// A stored Solana wallet.
#[derive(Debug)]
pub struct QSolanaWallet {
    pub wallet_id: i32,
    pub user_id: i32,
    pub wallet_addr: Vec<u8>,
}

/// A Tron wallet that is about to be attached to a user.
#[derive(Debug)]
pub struct TronWallet {
    pub user_id: i32,
    pub wallet_addr: Vec<u8>,
}

/// A stored Tron wallet.
#[derive(Debug)]
pub struct QTronWallet {
    pub wallet_id: i32,
    pub user_id: i32,
    pub wallet_addr: Vec<u8>,
}

/// The membership value of `user` in `room` with the given admin flag.
pub open spec fn part(room: i32, user: i32, admin: bool) -> ChatRoomParticipants {
    ChatRoomParticipants { chat_room_id: room, user_id: user, is_admin: admin }
}

} // verus!
