//! The wallet attachments: at most one wallet per user and chain.
use vstd::prelude::*;
use crate::accounts::{without_solana, without_tron};
use crate::lookup::{copy_bytes, find_user_by_id, find_user_by_name, user_with_name};
use crate::db_models::{DbError, QSolanaWallet, QTronWallet, SolanaWallet, TronWallet};
use crate::store::{has_user, user_named, ChatDb};

verus! {

/// The user `u` has a Solana wallet among `ws`.
pub open spec fn has_solana(ws: Seq<QSolanaWallet>, u: i32) -> bool {
    exists|i: int| 0 <= i < ws.len() && ws[i].user_id == u
}

/// The Solana wallet of `u`, where there is one.
pub open spec fn solana_of(ws: Seq<QSolanaWallet>, u: i32) -> QSolanaWallet {
    ws[choose|i: int| 0 <= i < ws.len() && ws[i].user_id == u]
}

/// The user `u` has a Tron wallet among `ws`.
pub open spec fn has_tron(ws: Seq<QTronWallet>, u: i32) -> bool {
    exists|i: int| 0 <= i < ws.len() && ws[i].user_id == u
}

/// The Tron wallet of `u`, where there is one.
pub open spec fn tron_of(ws: Seq<QTronWallet>, u: i32) -> QTronWallet {
    ws[choose|i: int| 0 <= i < ws.len() && ws[i].user_id == u]
}

/// Position of the Solana wallet of `u`.
fn find_solana(ws: &Vec<QSolanaWallet>, u: i32) -> (r: Option<usize>)
    ensures
        match r {
            Some(k) => k < ws@.len() && ws@[k as int].user_id == u && has_solana(ws@, u),
            None => !has_solana(ws@, u),
        },
{
    let mut i: usize = 0;
    while i < ws.len()
        invariant
            i <= ws@.len(),
            forall|j: int| 0 <= j < i ==> #[trigger] ws@[j].user_id != u,
        decreases ws@.len() - i,
    {
        if ws[i].user_id == u {
            return Some(i);
        }
        i = i + 1;
    }
    None
}

/// Position of the Tron wallet of `u`.
fn find_tron(ws: &Vec<QTronWallet>, u: i32) -> (r: Option<usize>)
    ensures
        match r {
            Some(k) => k < ws@.len() && ws@[k as int].user_id == u && has_tron(ws@, u),
            None => !has_tron(ws@, u),
        },
{
    let mut i: usize = 0;
    while i < ws.len()
        invariant
            i <= ws@.len(),
            forall|j: int| 0 <= j < i ==> #[trigger] ws@[j].user_id != u,
        decreases ws@.len() - i,
    {
        if ws[i].user_id == u {
            return Some(i);
        }
        i = i + 1;
    }
    None
}

/// The Solana wallet of the user `_user_id`.
pub fn get_user_solana_wallet(_conn: &ChatDb, _user_id: i32) -> (r: Result<QSolanaWallet, DbError>)
    requires
        _conn.wf(),
    ensures
        match r {
            Ok(w) => has_solana(_conn.solana_wallets@, _user_id) && ({
                let s = solana_of(_conn.solana_wallets@, _user_id);
                w.wallet_id == s.wallet_id && w.user_id == s.user_id && w.wallet_addr@ == s.wallet_addr@
            }),
            Err(e) => e == DbError::NotFound && !has_solana(_conn.solana_wallets@, _user_id),
        },
{
    match find_solana(&_conn.solana_wallets, _user_id) {
        Some(k) => {
            let w = &_conn.solana_wallets[k];
            proof {
                let ws = _conn.solana_wallets@;
                let j = choose|i: int| 0 <= i < ws.len() && ws[i].user_id == _user_id;
                assert(ws[j].user_id == ws[k as int].user_id);
            }
            Ok(QSolanaWallet { wallet_id: w.wallet_id, user_id: w.user_id, wallet_addr: copy_bytes(&w.wallet_addr) })
        },
        None => Err(DbError::NotFound),
    }
}

/// The Tron wallet of the user `_user_id`.
pub fn get_user_tron_wallet(_conn: &ChatDb, _user_id: i32) -> (r: Result<QTronWallet, DbError>)
    requires
        _conn.wf(),
    ensures
        match r {
            Ok(w) => has_tron(_conn.tron_wallets@, _user_id) && ({
                let s = tron_of(_conn.tron_wallets@, _user_id);
                w.wallet_id == s.wallet_id && w.user_id == s.user_id && w.wallet_addr@ == s.wallet_addr@
            }),
            Err(e) => e == DbError::NotFound && !has_tron(_conn.tron_wallets@, _user_id),
        },
{
    match find_tron(&_conn.tron_wallets, _user_id) {
        Some(k) => {
            let w = &_conn.tron_wallets[k];
            proof {
                let ws = _conn.tron_wallets@;
                let j = choose|i: int| 0 <= i < ws.len() && ws[i].user_id == _user_id;
                assert(ws[j].user_id == ws[k as int].user_id);
            }
            Ok(QTronWallet { wallet_id: w.wallet_id, user_id: w.user_id, wallet_addr: copy_bytes(&w.wallet_addr) })
        },
        None => Err(DbError::NotFound),
    }
}

/// Why attaching a wallet to the user `u` fails, checked in this order, or
/// `None`; `has` says whether the user already has one on that chain.
pub open spec fn wallet_refusal(db: &ChatDb, u: i32, has: bool) -> Option<DbError> {
    if has {
        Some(DbError::AlreadyExists)
    } else if !has_user(db.users@, u) {
        Some(DbError::NotFound)
    } else if db.next_wallet_id == i32::MAX {
        Some(DbError::Internal)
    } else {
        None
    }
}

/// Attaches the Solana wallet `_new_wallet_info` to its user, who must have
/// none yet.
pub fn initialize_new_solana_wallet(_conn: &mut ChatDb, _new_wallet_info: &SolanaWallet) -> (r: Result<QSolanaWallet, DbError>)
    requires
        old(_conn).wf(),
    ensures
        final(_conn).wf(),
        ({
            let pre = &*old(_conn);
            let post = &*final(_conn);
            let u = _new_wallet_info.user_id;
            match wallet_refusal(pre, u, has_solana(pre.solana_wallets@, u)) {
                Some(e) => r == Err::<QSolanaWallet, DbError>(e) && *post == *pre,
                None => match r {
                    Ok(w) => {
                        &&& w.wallet_id == pre.next_wallet_id
                        &&& w.user_id == u
                        &&& w.wallet_addr@ == _new_wallet_info.wallet_addr@
                        &&& post.solana_wallets@.len() == pre.solana_wallets@.len() + 1
                        &&& post.solana_wallets@.drop_last() == pre.solana_wallets@
                        &&& post.solana_wallets@.last().wallet_id == w.wallet_id
                        &&& post.solana_wallets@.last().user_id == u
                        &&& post.solana_wallets@.last().wallet_addr@ == w.wallet_addr@
                        &&& post.next_wallet_id == pre.next_wallet_id + 1
                        &&& post.tron_wallets@ == pre.tron_wallets@
                        &&& post.users@ == pre.users@
                        &&& post.profiles@ == pre.profiles@
                        &&& post.rooms@ == pre.rooms@
                        &&& post.members@ == pre.members@
                        &&& post.next_user_id == pre.next_user_id
                        &&& post.next_room_id == pre.next_room_id
                    },
                    Err(_) => false,
                },
            }
        }),
{
    let u = _new_wallet_info.user_id;
    if find_solana(&_conn.solana_wallets, u).is_some() {
        return Err(DbError::AlreadyExists);
    }
    if find_user_by_id(&_conn.users, u).is_none() {
        return Err(DbError::NotFound);
    }
    if _conn.next_wallet_id == i32::MAX {
        return Err(DbError::Internal);
    }
    let ghost pre = *_conn;
    let id = _conn.next_wallet_id;
    let row = QSolanaWallet { wallet_id: id, user_id: u, wallet_addr: copy_bytes(&_new_wallet_info.wallet_addr) };
    let out = QSolanaWallet { wallet_id: id, user_id: u, wallet_addr: copy_bytes(&_new_wallet_info.wallet_addr) };
    _conn.solana_wallets.push(row);
    _conn.next_wallet_id = id + 1;
    proof {
        let ws = pre.solana_wallets@;
        let nws = _conn.solana_wallets@;
        assert(nws.drop_last() =~= ws);
        assert forall|i: int| 0 <= i < nws.len() implies has_user(_conn.users@, #[trigger] nws[i].user_id) by {
            if i < ws.len() {
                assert(nws[i] == ws[i]);
            }
        }
        assert forall|a: int, b: int|
            #![trigger nws[a], nws[b]]
            0 <= a < nws.len() && 0 <= b < nws.len() && nws[a].user_id == nws[b].user_id implies a == b by {
            if a < ws.len() {
                assert(nws[a] == ws[a]);
            }
            if b < ws.len() {
                assert(nws[b] == ws[b]);
            }
        }
        assert(pre.members_wf());
        assert(_conn.members@ == pre.members@ && _conn.rooms@ == pre.rooms@ && _conn.users@ == pre.users@);
    }
    Ok(out)
}

/// Attaches the Tron wallet `_new_wallet_info` to its user, who must have
/// none yet.
pub fn initialize_new_tron_wallet(_conn: &mut ChatDb, _new_wallet_info: &TronWallet) -> (r: Result<QTronWallet, DbError>)
    requires
        old(_conn).wf(),
    ensures
        final(_conn).wf(),
        ({
            let pre = &*old(_conn);
            let post = &*final(_conn);
            let u = _new_wallet_info.user_id;
            match wallet_refusal(pre, u, has_tron(pre.tron_wallets@, u)) {
                Some(e) => r == Err::<QTronWallet, DbError>(e) && *post == *pre,
                None => match r {
                    Ok(w) => {
                        &&& w.wallet_id == pre.next_wallet_id
                        &&& w.user_id == u
                        &&& w.wallet_addr@ == _new_wallet_info.wallet_addr@
                        &&& post.tron_wallets@.len() == pre.tron_wallets@.len() + 1
                        &&& post.tron_wallets@.drop_last() == pre.tron_wallets@
                        &&& post.tron_wallets@.last().wallet_id == w.wallet_id
                        &&& post.tron_wallets@.last().user_id == u
                        &&& post.tron_wallets@.last().wallet_addr@ == w.wallet_addr@
                        &&& post.next_wallet_id == pre.next_wallet_id + 1
                        &&& post.solana_wallets@ == pre.solana_wallets@
                        &&& post.users@ == pre.users@
                        &&& post.profiles@ == pre.profiles@
                        &&& post.rooms@ == pre.rooms@
                        &&& post.members@ == pre.members@
                        &&& post.next_user_id == pre.next_user_id
                        &&& post.next_room_id == pre.next_room_id
                    },
                    Err(_) => false,
                },
            }
        }),
{
    let u = _new_wallet_info.user_id;
    if find_tron(&_conn.tron_wallets, u).is_some() {
        return Err(DbError::AlreadyExists);
    }
    if find_user_by_id(&_conn.users, u).is_none() {
        return Err(DbError::NotFound);
    }
    if _conn.next_wallet_id == i32::MAX {
        return Err(DbError::Internal);
    }
    let ghost pre = *_conn;
    let id = _conn.next_wallet_id;
    let row = QTronWallet { wallet_id: id, user_id: u, wallet_addr: copy_bytes(&_new_wallet_info.wallet_addr) };
    let out = QTronWallet { wallet_id: id, user_id: u, wallet_addr: copy_bytes(&_new_wallet_info.wallet_addr) };
    _conn.tron_wallets.push(row);
    _conn.next_wallet_id = id + 1;
    proof {
        let ws = pre.tron_wallets@;
        let nws = _conn.tron_wallets@;
        assert(nws.drop_last() =~= ws);
        assert forall|i: int| 0 <= i < nws.len() implies has_user(_conn.users@, #[trigger] nws[i].user_id) by {
            if i < ws.len() {
                assert(nws[i] == ws[i]);
            }
        }
        assert forall|a: int, b: int|
            #![trigger nws[a], nws[b]]
            0 <= a < nws.len() && 0 <= b < nws.len() && nws[a].user_id == nws[b].user_id implies a == b by {
            if a < ws.len() {
                assert(nws[a] == ws[a]);
            }
            if b < ws.len() {
                assert(nws[b] == ws[b]);
            }
        }
        assert(pre.members_wf());
        assert(_conn.members@ == pre.members@ && _conn.rooms@ == pre.rooms@ && _conn.users@ == pre.users@);
    }
    Ok(out)
}

/// Detaches the Solana wallet of the user called `_username`, where there is
/// one.
pub fn delete_solana_wallet(_conn: &mut ChatDb, _username: &String) -> (r: Result<bool, DbError>)
    requires
        old(_conn).wf(),
    ensures
        final(_conn).wf(),
        ({
            let pre = &*old(_conn);
            let post = &*final(_conn);
            if !user_named(pre.users@, _username@) {
                r == Err::<bool, DbError>(DbError::NotFound) && *post == *pre
            } else {
                &&& r == Ok::<bool, DbError>(true)
                &&& post.solana_wallets@ == without_solana(pre.solana_wallets@, user_with_name(pre.users@, _username@).user_id)
                &&& post.tron_wallets@ == pre.tron_wallets@
                &&& post.users@ == pre.users@
                &&& post.profiles@ == pre.profiles@
                &&& post.rooms@ == pre.rooms@
                &&& post.members@ == pre.members@
                &&& post.next_user_id == pre.next_user_id
                &&& post.next_room_id == pre.next_room_id
                &&& post.next_wallet_id == pre.next_wallet_id
            }
        }),
{
    let k = match find_user_by_name(&_conn.users, _username) {
        Some(k) => k,
        None => return Err(DbError::NotFound),
    };
    let u = _conn.users[k].user_id;
    proof {
        let us = _conn.users@;
        assert(us.contains(us[k as int]));
        assert(us[k as int] == user_with_name(us, _username@));
    }
    if let Some(i) = find_solana(&_conn.solana_wallets, u) {
        let ghost pre = *_conn;
        let _ = _conn.solana_wallets.remove(i);
        proof {
            let ws = pre.solana_wallets@;
            let j = choose|j: int| 0 <= j < ws.len() && ws[j].user_id == u;
            assert(ws[j].user_id == ws[i as int].user_id);
            let nws = _conn.solana_wallets@;
            assert forall|a: int| 0 <= a < nws.len() implies #[trigger] nws[a] == ws[if a < i { a } else { a + 1 }] by {}
            assert forall|a: int| 0 <= a < nws.len() implies has_user(_conn.users@, #[trigger] nws[a].user_id) by {
                assert(nws[a] == ws[if a < i { a } else { a + 1 }]);
            }
            assert forall|a: int, b: int|
                #![trigger nws[a], nws[b]]
                0 <= a < nws.len() && 0 <= b < nws.len() && nws[a].user_id == nws[b].user_id implies a == b by {
                assert(nws[a] == ws[if a < i { a } else { a + 1 }]);
                assert(nws[b] == ws[if b < i { b } else { b + 1 }]);
            }
            assert(pre.members_wf());
            assert(_conn.members@ == pre.members@ && _conn.rooms@ == pre.rooms@ && _conn.users@ == pre.users@);
        }
    }
    Ok(true)
}

/// Detaches the Tron wallet of the user called `_username`, where there is
/// one.
pub fn delete_tron_wallet(_conn: &mut ChatDb, _username: &String) -> (r: Result<bool, DbError>)
    requires
        old(_conn).wf(),
    ensures
        final(_conn).wf(),
        ({
            let pre = &*old(_conn);
            let post = &*final(_conn);
            if !user_named(pre.users@, _username@) {
                r == Err::<bool, DbError>(DbError::NotFound) && *post == *pre
            } else {
                &&& r == Ok::<bool, DbError>(true)
                &&& post.tron_wallets@ == without_tron(pre.tron_wallets@, user_with_name(pre.users@, _username@).user_id)
                &&& post.solana_wallets@ == pre.solana_wallets@
                &&& post.users@ == pre.users@
                &&& post.profiles@ == pre.profiles@
                &&& post.rooms@ == pre.rooms@
                &&& post.members@ == pre.members@
                &&& post.next_user_id == pre.next_user_id
                &&& post.next_room_id == pre.next_room_id
                &&& post.next_wallet_id == pre.next_wallet_id
            }
        }),
{
    let k = match find_user_by_name(&_conn.users, _username) {
        Some(k) => k,
        None => return Err(DbError::NotFound),
    };
    let u = _conn.users[k].user_id;
    proof {
        let us = _conn.users@;
        assert(us.contains(us[k as int]));
        assert(us[k as int] == user_with_name(us, _username@));
    }
    if let Some(i) = find_tron(&_conn.tron_wallets, u) {
        let ghost pre = *_conn;
        let _ = _conn.tron_wallets.remove(i);
        proof {
            let ws = pre.tron_wallets@;
            let j = choose|j: int| 0 <= j < ws.len() && ws[j].user_id == u;
            assert(ws[j].user_id == ws[i as int].user_id);
            let nws = _conn.tron_wallets@;
            assert forall|a: int| 0 <= a < nws.len() implies #[trigger] nws[a] == ws[if a < i { a } else { a + 1 }] by {}
            assert forall|a: int| 0 <= a < nws.len() implies has_user(_conn.users@, #[trigger] nws[a].user_id) by {
                assert(nws[a] == ws[if a < i { a } else { a + 1 }]);
            }
            assert forall|a: int, b: int|
                #![trigger nws[a], nws[b]]
                0 <= a < nws.len() && 0 <= b < nws.len() && nws[a].user_id == nws[b].user_id implies a == b by {
                assert(nws[a] == ws[if a < i { a } else { a + 1 }]);
                assert(nws[b] == ws[if b < i { b } else { b + 1 }]);
            }
            assert(pre.members_wf());
            assert(_conn.members@ == pre.members@ && _conn.rooms@ == pre.rooms@ && _conn.users@ == pre.users@);
        }
    }
    Ok(true)
}

} // verus!
