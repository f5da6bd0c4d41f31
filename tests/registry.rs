use maj_spirit::error::AppError;
use maj_spirit::query_data::{GameDetail, RoundDetail};
use maj_spirit::room::Hall;
use maj_spirit::txmanager::TxManager;
use maj_spirit::ws::{route_message, routing_reply, ClientMessage, ServerMessage};
use tokio::sync::mpsc::unbounded_channel;

#[test]
fn second_connection_is_refused_until_unregistered() {
    let mut conns: TxManager<u64, ServerMessage> = TxManager::new();
    let (tx1, mut rx1) = unbounded_channel();
    let (tx2, _rx2) = unbounded_channel();
    assert!(conns.insert(1, tx1));
    assert!(!conns.insert(1, tx2.clone()));
    // the first connection still receives
    assert_eq!(conns.send(&1, ServerMessage::Tie), Ok(()));
    assert_eq!(rx1.try_recv().unwrap(), ServerMessage::Tie);
    assert!(conns.delete(&1));
    assert!(!conns.delete(&1));
    assert_eq!(conns.send(&1, ServerMessage::Tie), Err(AppError::TxNotExist));
    assert!(conns.insert(1, tx2));
}

#[test]
fn send_to_closed_channel_fails() {
    let mut conns: TxManager<u64, ServerMessage> = TxManager::new();
    let (tx, rx) = unbounded_channel();
    assert!(conns.insert(5, tx));
    drop(rx);
    assert_eq!(conns.send(&5, ServerMessage::Tie), Err(AppError::MpscSend));
}

#[test]
fn room_fills_at_four_and_starts() {
    let mut hall = Hall::new();
    for uid in 1..=4u64 {
        assert_eq!(hall.room_join(7, uid), Ok(()));
    }
    assert_eq!(hall.room_join(7, 5), Err(AppError::RoomAlreadyFull));
    assert!(!hall.belongs.contains_key(&5));
    assert_eq!(hall.room_start(7, 2), Ok([1, 2, 3, 4]));
    assert_eq!(hall.room_start(7, 5), Err(AppError::UserNotInRoom));
}

#[test]
fn user_joins_one_room_only() {
    let mut hall = Hall::new();
    assert_eq!(hall.room_join(7, 1), Ok(()));
    assert_eq!(hall.room_join(8, 1), Err(AppError::UserAlreadyInRoom(7)));
    assert_eq!(hall.room_join(7, 1), Err(AppError::UserAlreadyInRoom(7)));
    assert!(!hall.rooms.contains_key(&8));
}

#[test]
fn leaving_removes_member_and_empty_room() {
    let mut hall = Hall::new();
    assert_eq!(hall.room_leave(3, 1), Err(AppError::RoomNotExist));
    assert_eq!(hall.room_join(3, 1), Ok(()));
    assert_eq!(hall.room_join(3, 2), Ok(()));
    assert_eq!(hall.room_join(4, 9), Ok(()));
    assert_eq!(hall.room_leave(3, 9), Err(AppError::UserNotInRoom));
    assert_eq!(hall.room_leave(3, 1), Ok(()));
    assert_eq!(hall.rooms[&3], vec![2]);
    assert!(!hall.belongs.contains_key(&1));
    assert_eq!(hall.room_leave(3, 2), Ok(()));
    assert!(!hall.rooms.contains_key(&3));
    assert_eq!(hall.room_join(3, 1), Ok(()));
}

#[test]
fn start_needs_a_full_room() {
    let mut hall = Hall::new();
    assert_eq!(hall.room_start(1, 1), Err(AppError::RoomNotExist));
    assert_eq!(hall.room_join(1, 1), Ok(()));
    assert_eq!(hall.room_start(1, 1), Err(AppError::RoomNotFull));
}

#[test]
fn messages_reach_the_session_of_the_room() {
    let mut hall = Hall::new();
    let mut games: TxManager<usize, (u64, ClientMessage)> = TxManager::new();
    assert_eq!(
        route_message(&hall, &games, 1, ClientMessage::RequestGameSync),
        Err(AppError::UserNotInRoom)
    );
    assert_eq!(hall.room_join(7, 1), Ok(()));
    assert_eq!(
        route_message(&hall, &games, 1, ClientMessage::RequestGameSync),
        Err(AppError::TxNotExist)
    );
    let (tx, mut rx) = unbounded_channel();
    assert!(games.insert(7, tx));
    assert_eq!(route_message(&hall, &games, 1, ClientMessage::Discard(3)), Ok(()));
    assert_eq!(rx.try_recv().unwrap(), (1, ClientMessage::Discard(3)));
}

#[test]
fn routing_failures_are_answered() {
    assert_eq!(routing_reply(AppError::TxNotExist), Some(ServerMessage::GameNotStart));
    assert_eq!(routing_reply(AppError::UserNotInRoom), Some(ServerMessage::UserNotInRoom));
    assert_eq!(routing_reply(AppError::MpscSend), None);
}

#[test]
fn game_and_round_details_hold_what_was_given() {
    let g = GameDetail::new();
    assert!(g.players.is_empty() && g.players_score.is_empty());
    let r = RoundDetail::new(vec![1, 2], vec![3], Some(1), None);
    assert_eq!(r.stack, vec![1, 2]);
    assert_eq!(r.discard, vec![3]);
    assert_eq!(r.winner_seat, Some(1));
    assert_eq!(r.loser_seat, None);
}
