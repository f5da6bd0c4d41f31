//! Failures the library reports.
use vstd::prelude::*;

verus! {

#[derive(Clone, Copy, Debug, PartialEq, Eq)]
pub enum AppError {
    UserAlreadyExist,
    UserNotExist,
    PasswordIncorrect,
    /// The user already belongs to the given room.
    UserAlreadyInRoom(usize),
    UserNotInRoom,
    RoomNotExist,
    RoomAlreadyFull,
    RoomNotFull,
    UserNotConnected,
    GameNotStart,
    /// A session already runs for the room.
    GameAlreadyStarted,
    /// No finished game is stored under the given identifier.
    GameNotExist,
    /// Nobody is registered under the key a message was sent to.
    TxNotExist,
    /// The receiving end of a channel is gone.
    MpscSend,
}

} // verus!
