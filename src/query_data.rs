//! Records of finished games as they are read back.
use vstd::prelude::*;

verus! {

/// Seats and final scores of a finished game.
pub struct GameDetail {
    pub players: Vec<u64>,
    pub players_score: Vec<i64>,
}

impl GameDetail {
    /// No seats yet.
    pub fn new() -> (r: GameDetail)
        ensures
            r.players@.len() == 0,
            r.players_score@.len() == 0,
    {
        GameDetail { players: Vec::with_capacity(4), players_score: Vec::with_capacity(4) }
    }
}

/// One round of a finished game.
pub struct RoundDetail {
    pub stack: Vec<u8>,
    pub discard: Vec<u8>,
    pub winner_seat: Option<usize>,
    pub loser_seat: Option<usize>,
}

impl RoundDetail {
    pub fn new(
        stack: Vec<u8>,
        discard: Vec<u8>,
        winner_seat: Option<usize>,
        loser_seat: Option<usize>,
    ) -> (r: RoundDetail)
        ensures
            r.stack@ == stack@,
            r.discard@ == discard@,
            r.winner_seat == winner_seat,
            r.loser_seat == loser_seat,
    {
        RoundDetail { stack, discard, winner_seat, loser_seat }
    }
}

} // verus!
