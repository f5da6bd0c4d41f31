//! Messages between the clients and a game session.
use vstd::prelude::*;

use crate::cards::Cards;
use crate::error::AppError;
use crate::room::Hall;
use crate::txmanager::TxManager;

verus! {

/// Round index, seats and cumulative scores of a session.
#[derive(Clone, Copy, Debug, PartialEq, Eq)]
pub struct GameInfo {
    pub round_id: usize,
    pub players: [u64; 4],
    pub players_score: [i64; 4],
}

/// What the session tells a client.
#[derive(Clone, Copy, Debug, PartialEq, Eq)]
pub enum ServerMessage {
    GameNotStart,
    UserNotInRoom,
    NotCurrentPlayer,
    GameInfoSync(GameInfo),
    CardSync(Cards),
    GetCard(u8),
    Discard((u64, u8)),
    NotHaveCard,
    RoundStart(usize),
    WinAll(u64),
    WinOne((u64, u64)),
    Tie,
    GameEnd(usize),
}

/// What a client asks of the session.
#[derive(Clone, Copy, Debug, PartialEq, Eq)]
pub enum ClientMessage {
    RequestGameSync,
    RequestCardSync,
    Discard(u8),
}

/// Forwards `msg` from user `uid` to the session running for the user's
/// room. Fails with `UserNotInRoom` when the user is in no room, with
/// `TxNotExist` when no session runs for the room, and with `MpscSend` when
/// the session has stopped receiving.
pub fn route_message(
    hall: &Hall,
    games: &TxManager<usize, (u64, ClientMessage)>,
    uid: u64,
    msg: ClientMessage,
) -> (r: Result<(), AppError>)
    ensures
        !hall.belongs@.contains_key(uid) ==> r == Err::<(), AppError>(AppError::UserNotInRoom),
        hall.belongs@.contains_key(uid) ==> (!games@.contains_key(hall.belongs@[uid]) <==> r
            == Err::<(), AppError>(AppError::TxNotExist)),
        hall.belongs@.contains_key(uid) && games@.contains_key(hall.belongs@[uid]) ==> (r is Ok
            || r == Err::<(), AppError>(AppError::MpscSend)),
{
    broadcast use vstd::std_specs::hash::group_hash_axioms;

    match hall.belongs.get(&uid) {
        Some(room_id) => games.send(room_id, (uid, msg)),
        None => Err(AppError::UserNotInRoom),
    }
}

/// What the sender of a message is told when it could not be routed:
/// that no game runs, or that it is in no room. Other failures are not
/// answered.
pub fn routing_reply(e: AppError) -> (r: Option<ServerMessage>)
    ensures
        e == AppError::TxNotExist ==> r == Some(ServerMessage::GameNotStart),
        e == AppError::UserNotInRoom ==> r == Some(ServerMessage::UserNotInRoom),
        e != AppError::TxNotExist && e != AppError::UserNotInRoom ==> r is None,
{
    match e {
        AppError::TxNotExist => Some(ServerMessage::GameNotStart),
        AppError::UserNotInRoom => Some(ServerMessage::UserNotInRoom),
        _ => None,
    }
}

} // verus!
