use chatuza_db::accounts::{add_new_user, delete_user, update_user_credits, update_user_profile};
use chatuza_db::groups::{
    add_new_group_chat_room, add_participant_to_group_chat_room, del_participant_from_group_chat_room,
    delete_group_chat_room, get_group_owner_by_id, update_group_chat_room_info,
};
use chatuza_db::db_models::{
    ChatRoomParticipants, ChatRooms, DbError, QChatRooms, RoomKind, SolanaWallet, TronWallet,
    UpdatableChatRooms, UserProfiles, Users,
};
use chatuza_db::naming::{decimal_text, p2p_room_name, room_name_from};
use chatuza_db::p2p::{add_new_p2p_chat_room, create_p2p_room, delete_p2p_chat_room, get_two_users_p2p_chat_room};
use chatuza_db::queries::{
    get_chat_room_participants_by_id, get_chat_room_participants_by_name, get_group_chat_by_id,
    get_group_chat_by_name, get_user_group_chat_rooms_by_user_id, get_user_p2p_chat_rooms_by_user_id,
    get_user_profile_with_user_id, get_user_profile_with_username, get_user_with_email,
    get_user_with_user_id, get_user_with_username, is_group_chat, is_user_in_chat_room,
    is_valid_chatroom, is_valid_user,
};
use chatuza_db::store::ChatDb;
use chatuza_db::wallet_lib::{
    delete_solana_wallet, delete_tron_wallet, get_user_solana_wallet, get_user_tron_wallet, initialize_new_solana_wallet,
    initialize_new_tron_wallet,
};

fn user(db: &mut ChatDb, name: &str) -> i32 {
    let creds = Users {
        username: name.to_string(),
        email: format!("{}@example.com", name),
        password: "pw".to_string(),
    };
    let mut profile = UserProfiles { user_id: 0, bio: Some(format!("bio of {}", name)), profile_picture: None };
    add_new_user(db, &creds, &mut profile).unwrap().user_id
}

fn group(db: &mut ChatDb, name: &str, owner: &str, members: &[&str]) -> Result<QChatRooms, DbError> {
    let info = ChatRooms {
        room_name: name.to_string(),
        room_description: "a group".to_string(),
        chat_room_pubkey: vec![1, 2, 3],
    };
    add_new_group_chat_room(db, &info, &owner.to_string(), members.iter().map(|m| m.to_string()).collect())
}

fn p(room: i32, user: i32) -> ChatRoomParticipants {
    ChatRoomParticipants { chat_room_id: room, user_id: user, is_admin: false }
}

fn memberships_of(db: &ChatDb, user: i32) -> usize {
    db.members.iter().filter(|m| m.user_id == user).count()
}

#[test]
fn scenario_alice_bob_p2p() {
    let mut db = ChatDb::new();
    let alice = user(&mut db, "alice");
    let bob = user(&mut db, "bob");
    let room = add_new_p2p_chat_room(&mut db, alice, bob, "key1".to_string()).unwrap();
    assert_eq!(room.room_kind, RoomKind::P2P);
    assert_eq!(room.room_description, "private room");
    assert_eq!(room.chat_room_pubkey, b"key1".to_vec());
    let members = get_chat_room_participants_by_id(&db, room.chat_room_id).unwrap();
    assert_eq!(members.len(), 2);
    assert_eq!(
        add_new_p2p_chat_room(&mut db, bob, alice, "key2".to_string()).unwrap_err(),
        DbError::AlreadyExists
    );
    assert_eq!(delete_user(&mut db, &"alice".to_string()), Ok(true));
    assert_eq!(get_group_chat_by_id(&db, room.chat_room_id).unwrap_err(), DbError::NotFound);
    assert_eq!(get_user_p2p_chat_rooms_by_user_id(&db, bob).unwrap_err(), DbError::NotFound);
    assert_eq!(memberships_of(&db, bob), 0);
}

#[test]
fn scenario_team_group() {
    let mut db = ChatDb::new();
    let carol = user(&mut db, "carol");
    let dave = user(&mut db, "dave");
    let eve = user(&mut db, "eve");
    let team = group(&mut db, "Team", "carol", &["dave"]).unwrap();
    let id = team.chat_room_id;
    assert_eq!(get_group_owner_by_id(&db, id), Ok(carol));
    assert_eq!(
        add_participant_to_group_chat_room(&mut db, &p(id, eve), &"dave".to_string()).unwrap_err(),
        DbError::PermissionDenied
    );
    assert_eq!(add_participant_to_group_chat_room(&mut db, &p(id, eve), &"carol".to_string()), Ok(p(id, eve)));
    assert_eq!(
        delete_group_chat_room(&mut db, &"Team".to_string(), &"dave".to_string()).unwrap_err(),
        DbError::PermissionDenied
    );
    assert_eq!(delete_group_chat_room(&mut db, &"Team".to_string(), &"carol".to_string()), Ok(true));
    assert_eq!(db.members.iter().filter(|m| m.chat_room_id == id).count(), 0);
    assert!(!is_user_in_chat_room(&db, id, dave));
}

#[test]
fn p2p_pair_is_unique_in_either_order() {
    let mut db = ChatDb::new();
    let a = user(&mut db, "a");
    let b = user(&mut db, "b");
    let room = create_p2p_room(&mut db, a, b, &"k".to_string(), "room-ab".to_string()).unwrap();
    let members = get_chat_room_participants_by_id(&db, room.chat_room_id).unwrap();
    assert_eq!(members, vec![p(room.chat_room_id, a), p(room.chat_room_id, b)]);
    let rooms_before = db.rooms.len();
    assert_eq!(
        create_p2p_room(&mut db, a, b, &"k2".to_string(), "other".to_string()).unwrap_err(),
        DbError::AlreadyExists
    );
    assert_eq!(
        create_p2p_room(&mut db, b, a, &"k3".to_string(), "other2".to_string()).unwrap_err(),
        DbError::AlreadyExists
    );
    assert_eq!(db.rooms.len(), rooms_before);
    let shared = get_two_users_p2p_chat_room(&db, b, a).unwrap();
    assert_eq!(shared.chat_room_id, room.chat_room_id);
    assert_eq!(shared.room_name, "room-ab");
}

#[test]
fn p2p_with_oneself_or_unknown_user_fails() {
    let mut db = ChatDb::new();
    let a = user(&mut db, "a");
    assert_eq!(
        create_p2p_room(&mut db, a, a, &"k".to_string(), "n".to_string()).unwrap_err(),
        DbError::Conflict
    );
    assert_eq!(
        create_p2p_room(&mut db, a, 999, &"k".to_string(), "n".to_string()).unwrap_err(),
        DbError::NotFound
    );
    assert_eq!(get_two_users_p2p_chat_room(&db, a, a).unwrap_err(), DbError::NotFound);
    assert!(db.rooms.is_empty());
}

#[test]
fn p2p_name_collision_is_conflict() {
    let mut db = ChatDb::new();
    let a = user(&mut db, "a");
    let b = user(&mut db, "b");
    let c = user(&mut db, "c");
    create_p2p_room(&mut db, a, b, &"k".to_string(), "same".to_string()).unwrap();
    assert_eq!(
        create_p2p_room(&mut db, a, c, &"k".to_string(), "same".to_string()).unwrap_err(),
        DbError::Conflict
    );
}

#[test]
fn generated_p2p_name_is_decimal_digits() {
    let name = p2p_room_name();
    assert!(!name.is_empty());
    assert!(name.chars().all(|c| c.is_ascii_digit()));
    assert!(name.len() == 1 || !name.starts_with('0'));
}

#[test]
fn delete_p2p_removes_room_and_memberships() {
    let mut db = ChatDb::new();
    let a = user(&mut db, "a");
    let b = user(&mut db, "b");
    let room = create_p2p_room(&mut db, a, b, &"k".to_string(), "r".to_string()).unwrap();
    assert_eq!(delete_p2p_chat_room(&mut db, &"b".to_string(), &"a".to_string()), Ok(true));
    assert!(!is_valid_chatroom(&db, room.chat_room_id));
    assert!(db.members.is_empty());
    assert_eq!(delete_p2p_chat_room(&mut db, &"b".to_string(), &"a".to_string()), Err(DbError::NotFound));
    assert_eq!(delete_p2p_chat_room(&mut db, &"x".to_string(), &"a".to_string()), Err(DbError::NotFound));
}

#[test]
fn group_has_exactly_one_admin() {
    let mut db = ChatDb::new();
    let o = user(&mut db, "o");
    let m1 = user(&mut db, "m1");
    let m2 = user(&mut db, "m2");
    let g = group(&mut db, "G", "o", &["m1", "o", "m1", "m2"]).unwrap();
    let members = get_chat_room_participants_by_id(&db, g.chat_room_id).unwrap();
    let id = g.chat_room_id;
    assert_eq!(
        members,
        vec![
            ChatRoomParticipants { chat_room_id: id, user_id: o, is_admin: true },
            p(id, m1),
            p(id, m2)
        ]
    );
    assert_eq!(members.iter().filter(|m| m.is_admin).count(), 1);
    assert_eq!(get_group_owner_by_id(&db, id), Ok(o));
}

#[test]
fn group_with_unknown_member_changes_nothing() {
    let mut db = ChatDb::new();
    user(&mut db, "o");
    assert_eq!(group(&mut db, "G", "o", &["ghost"]).unwrap_err(), DbError::NotFound);
    assert_eq!(group(&mut db, "G", "nobody", &[]).unwrap_err(), DbError::NotFound);
    assert!(db.rooms.is_empty());
    assert!(db.members.is_empty());
}

#[test]
fn group_name_taken_is_conflict() {
    let mut db = ChatDb::new();
    user(&mut db, "o");
    group(&mut db, "G", "o", &[]).unwrap();
    assert_eq!(group(&mut db, "G", "o", &[]).unwrap_err(), DbError::Conflict);
}

#[test]
fn owner_of_p2p_room_is_not_found() {
    let mut db = ChatDb::new();
    let a = user(&mut db, "a");
    let b = user(&mut db, "b");
    let room = create_p2p_room(&mut db, a, b, &"k".to_string(), "r".to_string()).unwrap();
    assert_eq!(get_group_owner_by_id(&db, room.chat_room_id), Err(DbError::NotFound));
    assert!(!is_group_chat(&db, room.chat_room_id));
    assert_eq!(
        add_participant_to_group_chat_room(&mut db, &p(room.chat_room_id, a), &"a".to_string()).unwrap_err(),
        DbError::NotFound
    );
}

#[test]
fn remove_by_outsider_is_denied() {
    let mut db = ChatDb::new();
    user(&mut db, "o");
    let m = user(&mut db, "m");
    let x = user(&mut db, "x");
    let g = group(&mut db, "G", "o", &["m", "x"]).unwrap();
    let before = db.members.clone();
    assert_eq!(
        del_participant_from_group_chat_room(&mut db, &p(g.chat_room_id, m), x),
        Err(DbError::PermissionDenied)
    );
    assert_eq!(db.members, before);
}

#[test]
fn remove_self_and_by_admin() {
    let mut db = ChatDb::new();
    let o = user(&mut db, "o");
    let m = user(&mut db, "m");
    let x = user(&mut db, "x");
    let g = group(&mut db, "G", "o", &["m", "x"]).unwrap();
    let id = g.chat_room_id;
    assert_eq!(del_participant_from_group_chat_room(&mut db, &p(id, m), m), Ok(true));
    assert!(!is_user_in_chat_room(&db, id, m));
    assert_eq!(del_participant_from_group_chat_room(&mut db, &p(id, m), o), Err(DbError::NotFound));
    assert_eq!(del_participant_from_group_chat_room(&mut db, &p(id, x), o), Ok(true));
    assert_eq!(get_chat_room_participants_by_id(&db, id).unwrap().len(), 1);
}

#[test]
fn admin_leaving_deletes_group() {
    let mut db = ChatDb::new();
    let o = user(&mut db, "o");
    user(&mut db, "m");
    let g = group(&mut db, "G", "o", &["m"]).unwrap();
    assert_eq!(del_participant_from_group_chat_room(&mut db, &p(g.chat_room_id, o), o), Ok(true));
    assert!(!is_valid_chatroom(&db, g.chat_room_id));
    assert!(db.members.is_empty());
}

#[test]
fn add_participant_errors() {
    let mut db = ChatDb::new();
    user(&mut db, "o");
    let m = user(&mut db, "m");
    let g = group(&mut db, "G", "o", &["m"]).unwrap();
    let id = g.chat_room_id;
    assert_eq!(
        add_participant_to_group_chat_room(&mut db, &p(id, m), &"o".to_string()).unwrap_err(),
        DbError::AlreadyExists
    );
    assert_eq!(
        add_participant_to_group_chat_room(&mut db, &p(id, 4242), &"o".to_string()).unwrap_err(),
        DbError::NotFound
    );
    assert_eq!(
        add_participant_to_group_chat_room(&mut db, &p(id, m), &"nobody".to_string()).unwrap_err(),
        DbError::NotFound
    );
    let admin_request = ChatRoomParticipants { chat_room_id: id, user_id: user(&mut db, "n"), is_admin: true };
    let added = add_participant_to_group_chat_room(&mut db, &admin_request, &"o".to_string()).unwrap();
    assert!(!added.is_admin);
    assert_eq!(get_chat_room_participants_by_id(&db, id).unwrap().iter().filter(|m| m.is_admin).count(), 1);
}

#[test]
fn delete_user_leaves_no_membership() {
    let mut db = ChatDb::new();
    let u = user(&mut db, "u");
    let o = user(&mut db, "o");
    let v = user(&mut db, "v");
    let owned = group(&mut db, "Mine", "u", &["v"]).unwrap();
    let other = group(&mut db, "Theirs", "o", &["u", "v"]).unwrap();
    let chat = create_p2p_room(&mut db, u, v, &"k".to_string(), "uv".to_string()).unwrap();
    let keep = create_p2p_room(&mut db, o, v, &"k".to_string(), "ov".to_string()).unwrap();
    initialize_new_solana_wallet(&mut db, &SolanaWallet { user_id: u, wallet_addr: vec![9] }).unwrap();
    initialize_new_tron_wallet(&mut db, &TronWallet { user_id: u, wallet_addr: vec![8] }).unwrap();
    assert_eq!(delete_user(&mut db, &"u".to_string()), Ok(true));
    assert_eq!(memberships_of(&db, u), 0);
    assert!(!is_valid_user(&db, u));
    assert!(!is_valid_chatroom(&db, owned.chat_room_id));
    assert!(!is_valid_chatroom(&db, chat.chat_room_id));
    assert!(is_valid_chatroom(&db, other.chat_room_id));
    assert!(is_valid_chatroom(&db, keep.chat_room_id));
    assert_eq!(get_chat_room_participants_by_id(&db, other.chat_room_id).unwrap(), vec![
        ChatRoomParticipants { chat_room_id: other.chat_room_id, user_id: o, is_admin: true },
        p(other.chat_room_id, v)
    ]);
    for room in db.rooms.iter() {
        assert!(db.members.iter().any(|m| m.chat_room_id == room.chat_room_id));
    }
    assert_eq!(get_user_solana_wallet(&db, u).unwrap_err(), DbError::NotFound);
    assert_eq!(get_user_tron_wallet(&db, u).unwrap_err(), DbError::NotFound);
    assert_eq!(get_user_profile_with_user_id(&db, u).unwrap_err(), DbError::NotFound);
    assert_eq!(delete_user(&mut db, &"u".to_string()), Err(DbError::NotFound));
}

#[test]
fn delete_group_twice_is_not_found() {
    let mut db = ChatDb::new();
    user(&mut db, "o");
    group(&mut db, "G", "o", &[]).unwrap();
    assert_eq!(delete_group_chat_room(&mut db, &"G".to_string(), &"o".to_string()), Ok(true));
    assert_eq!(delete_group_chat_room(&mut db, &"G".to_string(), &"o".to_string()), Err(DbError::NotFound));
}

#[test]
fn update_group_info_rules() {
    let mut db = ChatDb::new();
    user(&mut db, "o");
    user(&mut db, "m");
    let g = group(&mut db, "G", "o", &["m"]).unwrap();
    group(&mut db, "H", "o", &[]).unwrap();
    let upd = |n: &str| UpdatableChatRooms { room_name: n.to_string(), room_description: "new".to_string() };
    assert_eq!(
        update_group_chat_room_info(&mut db, &"G".to_string(), &upd("G2"), &"m".to_string()).unwrap_err(),
        DbError::PermissionDenied
    );
    assert_eq!(
        update_group_chat_room_info(&mut db, &"G".to_string(), &upd("H"), &"o".to_string()).unwrap_err(),
        DbError::Conflict
    );
    assert_eq!(
        update_group_chat_room_info(&mut db, &"nope".to_string(), &upd("X"), &"o".to_string()).unwrap_err(),
        DbError::NotFound
    );
    let same = update_group_chat_room_info(&mut db, &"G".to_string(), &upd("G"), &"o".to_string()).unwrap();
    assert_eq!(same.room_description, "new");
    let renamed = update_group_chat_room_info(&mut db, &"G".to_string(), &upd("G2"), &"o".to_string()).unwrap();
    assert_eq!(renamed.chat_room_id, g.chat_room_id);
    assert_eq!(renamed.room_name, "G2");
    assert_eq!(renamed.chat_room_pubkey, vec![1, 2, 3]);
    assert_eq!(get_group_chat_by_name(&db, &"G".to_string()).unwrap_err(), DbError::NotFound);
    assert_eq!(get_group_chat_by_name(&db, &"G2".to_string()).unwrap().chat_room_id, g.chat_room_id);
}

#[test]
fn users_are_unique_and_found() {
    let mut db = ChatDb::new();
    let a = user(&mut db, "a");
    let dup = Users { username: "a".to_string(), email: "other@example.com".to_string(), password: "p".to_string() };
    let mut prof = UserProfiles { user_id: 0, bio: None, profile_picture: None };
    assert_eq!(add_new_user(&mut db, &dup, &mut prof).unwrap_err(), DbError::Conflict);
    let dup_mail = Users { username: "b".to_string(), email: "a@example.com".to_string(), password: "p".to_string() };
    assert_eq!(add_new_user(&mut db, &dup_mail, &mut prof).unwrap_err(), DbError::Conflict);
    assert_eq!(db.users.len(), 1);
    assert_eq!(get_user_with_username(&db, "a").unwrap().user_id, a);
    assert_eq!(get_user_with_email(&db, "a@example.com").unwrap().username, "a");
    assert_eq!(get_user_with_user_id(&db, a).unwrap().email, "a@example.com");
    assert_eq!(get_user_with_username(&db, "zz").unwrap_err(), DbError::NotFound);
    let profile = get_user_profile_with_username(&db, &"a".to_string()).unwrap();
    assert_eq!(profile.user_id, a);
    assert_eq!(profile.bio, Some("bio of a".to_string()));
}

#[test]
fn new_user_ids_are_consecutive() {
    let mut db = ChatDb::new();
    let a = user(&mut db, "a");
    let b = user(&mut db, "b");
    assert_eq!(a, 1);
    assert_eq!(b, 2);
    let mut prof = UserProfiles { user_id: 77, bio: None, profile_picture: Some("pic".to_string()) };
    let c = add_new_user(
        &mut db,
        &Users { username: "c".to_string(), email: "c@x".to_string(), password: "p".to_string() },
        &mut prof,
    )
    .unwrap();
    assert_eq!(c.user_id, 3);
    assert_eq!(prof.user_id, 3);
    assert_eq!(prof.profile_picture, Some("pic".to_string()));
}

#[test]
fn credits_and_profile_updates() {
    let mut db = ChatDb::new();
    let a = user(&mut db, "a");
    user(&mut db, "b");
    let taken = Users { username: "b".to_string(), email: "new@x".to_string(), password: "p".to_string() };
    assert_eq!(update_user_credits(&mut db, &"a".to_string(), &taken).unwrap_err(), DbError::Conflict);
    let mail_taken = Users { username: "a2".to_string(), email: "b@example.com".to_string(), password: "p".to_string() };
    assert_eq!(update_user_credits(&mut db, &"a".to_string(), &mail_taken).unwrap_err(), DbError::Conflict);
    let ok = Users { username: "a2".to_string(), email: "a@example.com".to_string(), password: "q".to_string() };
    let updated = update_user_credits(&mut db, &"a".to_string(), &ok).unwrap();
    assert_eq!(updated.user_id, a);
    assert_eq!(updated.username, "a2");
    assert_eq!(get_user_with_username(&db, "a").unwrap_err(), DbError::NotFound);
    let mut prof = UserProfiles { user_id: 0, bio: Some("hello".to_string()), profile_picture: None };
    let saved = update_user_profile(&mut db, &"a2".to_string(), &mut prof).unwrap();
    assert_eq!(saved.user_id, a);
    assert_eq!(get_user_profile_with_user_id(&db, a).unwrap().bio, Some("hello".to_string()));
    assert_eq!(update_user_profile(&mut db, &"zz".to_string(), &mut prof).unwrap_err(), DbError::NotFound);
}

#[test]
fn wallets_one_per_chain() {
    let mut db = ChatDb::new();
    let a = user(&mut db, "a");
    let w = initialize_new_solana_wallet(&mut db, &SolanaWallet { user_id: a, wallet_addr: vec![1, 2] }).unwrap();
    assert_eq!(w.wallet_id, 1);
    assert_eq!(
        initialize_new_solana_wallet(&mut db, &SolanaWallet { user_id: a, wallet_addr: vec![3] }).unwrap_err(),
        DbError::AlreadyExists
    );
    assert_eq!(
        initialize_new_solana_wallet(&mut db, &SolanaWallet { user_id: 99, wallet_addr: vec![3] }).unwrap_err(),
        DbError::NotFound
    );
    assert_eq!(get_user_solana_wallet(&db, a).unwrap().wallet_addr, vec![1, 2]);
    assert_eq!(delete_solana_wallet(&mut db, &"a".to_string()), Ok(true));
    assert_eq!(get_user_solana_wallet(&db, a).unwrap_err(), DbError::NotFound);
    assert_eq!(delete_solana_wallet(&mut db, &"a".to_string()), Ok(true));
    assert_eq!(delete_solana_wallet(&mut db, &"q".to_string()), Err(DbError::NotFound));
}

#[test]
fn room_queries() {
    let mut db = ChatDb::new();
    let a = user(&mut db, "a");
    let b = user(&mut db, "b");
    let g = group(&mut db, "G", "a", &["b"]).unwrap();
    let r = create_p2p_room(&mut db, a, b, &"k".to_string(), "ab".to_string()).unwrap();
    assert!(is_group_chat(&db, g.chat_room_id));
    assert!(is_valid_chatroom(&db, r.chat_room_id));
    assert!(!is_valid_chatroom(&db, 1000));
    assert!(is_user_in_chat_room(&db, g.chat_room_id, b));
    let p2p = get_user_p2p_chat_rooms_by_user_id(&db, b).unwrap();
    assert_eq!(p2p.len(), 1);
    assert_eq!(p2p[0].room_name, "ab");
    let groups = get_user_group_chat_rooms_by_user_id(&db, b).unwrap();
    assert_eq!(groups.len(), 1);
    assert_eq!(groups[0].room_name, "G");
    assert_eq!(get_chat_room_participants_by_name(&db, &"G".to_string()).unwrap().len(), 2);
    assert_eq!(get_chat_room_participants_by_name(&db, &"none".to_string()).unwrap_err(), DbError::NotFound);
    assert_eq!(get_chat_room_participants_by_id(&db, 1000).unwrap_err(), DbError::NotFound);
}

#[test]
fn tron_wallet_attach_and_detach() {
    let mut db = ChatDb::new();
    let a = user(&mut db, "a");
    let w = initialize_new_tron_wallet(&mut db, &TronWallet { user_id: a, wallet_addr: b"T1".to_vec() }).unwrap();
    assert_eq!(w.user_id, a);
    assert_eq!(
        initialize_new_tron_wallet(&mut db, &TronWallet { user_id: a, wallet_addr: vec![0] }).unwrap_err(),
        DbError::AlreadyExists
    );
    assert_eq!(get_user_tron_wallet(&db, a).unwrap().wallet_addr, b"T1".to_vec());
    assert_eq!(delete_tron_wallet(&mut db, &"a".to_string()), Ok(true));
    assert_eq!(get_user_tron_wallet(&db, a).unwrap_err(), DbError::NotFound);
    assert_eq!(delete_tron_wallet(&mut db, &"nobody".to_string()), Err(DbError::NotFound));
}

#[test]
fn exhausted_identities_are_internal() {
    let mut db = ChatDb::new();
    let a = user(&mut db, "a");
    let b = user(&mut db, "b");
    db.next_room_id = i32::MAX;
    assert_eq!(group(&mut db, "G", "a", &[]).unwrap_err(), DbError::Internal);
    assert_eq!(
        create_p2p_room(&mut db, a, b, &"k".to_string(), "n".to_string()).unwrap_err(),
        DbError::Internal
    );
    db.next_user_id = i32::MAX;
    let mut prof = UserProfiles { user_id: 0, bio: None, profile_picture: None };
    let creds = Users { username: "c".to_string(), email: "c@x".to_string(), password: "p".to_string() };
    assert_eq!(add_new_user(&mut db, &creds, &mut prof).unwrap_err(), DbError::Internal);
    assert!(db.rooms.is_empty());
    assert_eq!(db.users.len(), 2);
}

#[test]
fn generated_names_let_many_pairs_chat() {
    let mut db = ChatDb::new();
    let a = user(&mut db, "a");
    let b = user(&mut db, "b");
    let c = user(&mut db, "c");
    let ab = add_new_p2p_chat_room(&mut db, a, b, "k1".to_string()).unwrap();
    let ac = add_new_p2p_chat_room(&mut db, a, c, "k2".to_string()).unwrap();
    let bc = add_new_p2p_chat_room(&mut db, b, c, "k3".to_string()).unwrap();
    assert_ne!(ab.room_name, ac.room_name);
    assert_ne!(ac.room_name, bc.room_name);
    assert_eq!(get_user_p2p_chat_rooms_by_user_id(&db, a).unwrap().len(), 2);
    assert_eq!(get_user_p2p_chat_rooms_by_user_id(&db, c).unwrap().len(), 2);
}

#[test]
fn room_name_depends_on_the_time_only() {
    let t1 = "2024-05-01T10:00:00.000000001Z".to_string();
    let t2 = "2024-05-01T10:00:00.000000002Z".to_string();
    let n1 = room_name_from(&t1);
    assert_eq!(n1, room_name_from(&t1));
    assert_ne!(n1, room_name_from(&t2));
    assert!(n1.chars().all(|ch| ch.is_ascii_digit()));
    assert!(!n1.contains("Private"));
}

#[test]
fn fresh_store_p2p_has_the_two_users() {
    let mut db = ChatDb::new();
    let alice = user(&mut db, "alice");
    let bob = user(&mut db, "bob");
    let r = add_new_p2p_chat_room(&mut db, alice, bob, "key1".to_string()).unwrap();
    assert_eq!(r.room_description, "private room");
    assert_eq!(r.chat_room_pubkey, b"key1".to_vec());
    let v = get_chat_room_participants_by_id(&db, r.chat_room_id).unwrap();
    assert_eq!(v, vec![p(r.chat_room_id, alice), p(r.chat_room_id, bob)]);
}

#[test]
fn group_members_deduplicated_owner_excluded() {
    let mut db = ChatDb::new();
    let carol = user(&mut db, "carol");
    let dave = user(&mut db, "dave");
    let t = group(&mut db, "Team", "carol", &["dave", "dave", "carol"]).unwrap();
    let id = t.chat_room_id;
    let rows: Vec<ChatRoomParticipants> = db.members.iter().filter(|m| m.chat_room_id == id).cloned().collect();
    assert_eq!(rows, vec![ChatRoomParticipants { chat_room_id: id, user_id: carol, is_admin: true }, p(id, dave)]);
    assert_eq!(get_group_owner_by_id(&db, id), Ok(carol));
}

#[test]
fn decimal_text_exact_values() {
    assert_eq!(decimal_text(0), "0");
    assert_eq!(decimal_text(7), "7");
    assert_eq!(decimal_text(10), "10");
    assert_eq!(decimal_text(12345), "12345");
    assert_eq!(decimal_text(u64::MAX), u64::MAX.to_string());
}

#[test]
fn taken_group_name_reported_before_unknown_member() {
    let mut db = ChatDb::new();
    user(&mut db, "o");
    group(&mut db, "G", "o", &[]).unwrap();
    assert_eq!(group(&mut db, "G", "o", &["ghost"]).unwrap_err(), DbError::Conflict);
    assert_eq!(group(&mut db, "H", "o", &["ghost"]).unwrap_err(), DbError::NotFound);
    assert_eq!(db.rooms.len(), 1);
}
