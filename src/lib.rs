//! A chat backend's room lifecycle and membership engine over an in-memory
//! relational store: users, profiles, p2p and group rooms, memberships and
//! attached wallets. Every operation keeps the store's invariant and either
//! applies all of its writes or none.
use vstd::prelude::*;

pub mod accounts;
pub mod db_models;
pub mod groups;
pub mod laws;
pub mod lookup;
pub mod naming;
pub mod p2p;
pub mod queries;
pub mod repo;
pub mod seq_facts;
pub mod store;
pub mod wallet_lib;

pub use accounts::{add_new_user, delete_user, update_user_credits, update_user_profile};
pub use groups::{
    add_new_group_chat_room, add_participant_to_group_chat_room,
    del_participant_from_group_chat_room, delete_group_chat_room, get_group_owner_by_id,
    update_group_chat_room_info,
};
pub use p2p::{add_new_p2p_chat_room, delete_p2p_chat_room, get_two_users_p2p_chat_room};
pub use queries::{
    get_chat_room_participants_by_id, get_chat_room_participants_by_name, get_group_chat_by_id,
    get_group_chat_by_name, get_user_group_chat_rooms_by_user_id,
    get_user_p2p_chat_rooms_by_user_id, get_user_profile_with_user_id,
    get_user_profile_with_username, get_user_with_email, get_user_with_user_id,
    get_user_with_username, is_group_chat, is_user_in_chat_room, is_valid_chatroom, is_valid_user,
};
pub use store::ChatDb;

verus! {

} // verus!
