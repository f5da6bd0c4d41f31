//! A game session: four seats, four rounds, cumulative scores and the record
//! of each round.
//!
//! The session does no I/O. Each operation appends the messages it sends to
//! an outbox, as `(user, message)` pairs in sending order.
use vstd::prelude::*;

use crate::round::{Discarded, Round};
use crate::stack::is_full_tile_set;
use crate::ws::{ClientMessage, GameInfo, ServerMessage};

verus! {

/// What is kept of a finished round.
pub struct RoundRecord {
    pub stack: [u8; 136],
    pub winner_seat: Option<usize>,
    pub loser_seat: Option<usize>,
    pub discard: Vec<u8>,
}

/// Whether `rec` holds the given stack order, outcome and discards.
pub open spec fn record_is(
    rec: RoundRecord,
    stack: Seq<u8>,
    winner: Option<usize>,
    loser: Option<usize>,
    discard: Seq<u8>,
) -> bool {
    rec.stack@ == stack && rec.winner_seat == winner && rec.loser_seat == loser && rec.discard@
        == discard
}

/// The same message to each of the four users, in seat order.
pub open spec fn to_all(players: [u64; 4], msg: ServerMessage) -> Seq<(u64, ServerMessage)> {
    seq![(players[0], msg), (players[1], msg), (players[2], msg), (players[3], msg)]
}

/// What each user is told when round `round_id` starts: its index, then
/// the user's own hand.
pub open spec fn round_start_msgs(players: [u64; 4], round_id: usize, round: Round) -> Seq<
    (u64, ServerMessage),
> {
    seq![
        (players[0], ServerMessage::RoundStart(round_id)),
        (players[0], ServerMessage::CardSync(round.cards_at(0))),
        (players[1], ServerMessage::RoundStart(round_id)),
        (players[1], ServerMessage::CardSync(round.cards_at(1))),
        (players[2], ServerMessage::RoundStart(round_id)),
        (players[2], ServerMessage::CardSync(round.cards_at(2))),
        (players[3], ServerMessage::RoundStart(round_id)),
        (players[3], ServerMessage::CardSync(round.cards_at(3))),
    ]
}

/// The change of seat `s`'s score that a round outcome brings: a self-draw
/// win takes one point from each other seat, a discard win one point from
/// the discarder, a tie nothing.
pub open spec fn score_delta(d: Discarded, s: int) -> int {
    match d {
        Discarded::WinByDiscard { winner, loser } => if s == winner {
            1
        } else if s == loser {
            -1
        } else {
            0
        },
        Discarded::WinBySelfDraw { winner, .. } => if s == winner {
            3
        } else {
            -1
        },
        _ => 0,
    }
}

/// Whether the seats an outcome names are seats, and distinct.
pub open spec fn names_valid_seats(d: Discarded) -> bool {
    match d {
        Discarded::WinByDiscard { winner, loser } => winner < 4 && loser < 4 && winner != loser,
        Discarded::WinBySelfDraw { winner, .. } => winner < 4,
        Discarded::Drew { seat, .. } => seat < 4,
        _ => true,
    }
}

/// The last of the first `n` seats that is bound to user `uid`, if any.
pub open spec fn last_seat(players: [u64; 4], uid: u64, n: int) -> Option<int>
    decreases n,
{
    if n <= 0 {
        None
    } else if players[n - 1] == uid {
        Some(n - 1)
    } else {
        last_seat(players, uid, n - 1)
    }
}

proof fn lemma_last_seat_range(players: [u64; 4], uid: u64, n: int)
    ensures
        last_seat(players, uid, n) matches Some(s) ==> 0 <= s < n && players[s] == uid,
    decreases n,
{
    if n > 0 {
        lemma_last_seat_range(players, uid, n - 1);
    }
}

/// The seat of user `uid`: the last seat bound to it, if any.
pub open spec fn seat_spec(players: [u64; 4], uid: u64) -> Option<int> {
    last_seat(players, uid, 4)
}

/// Scores never gain or lose points in total: the four deltas of any round
/// outcome sum to zero.
pub proof fn lemma_score_deltas_sum_to_zero(d: Discarded)
    requires
        names_valid_seats(d),
    ensures
        score_delta(d, 0) + score_delta(d, 1) + score_delta(d, 2) + score_delta(d, 3) == 0,
{
}

/// Whether seat `a` ranks before seat `b`: a higher score first, the lower
/// seat first among equal scores.
pub open spec fn precedes(scores: [i64; 4], a: int, b: int) -> bool {
    scores[a] > scores[b] || (scores[a] == scores[b] && a < b)
}

/// How many seats rank before seat `s`.
pub open spec fn rank_of(scores: [i64; 4], s: int) -> int {
    (if precedes(scores, 0, s) { 1int } else { 0int }) + (if precedes(scores, 1, s) {
        1int
    } else {
        0int
    }) + (if precedes(scores, 2, s) { 1int } else { 0int }) + (if precedes(scores, 3, s) {
        1int
    } else {
        0int
    })
}

/// The seats from first to last: by descending score, the lower seat first
/// among equal scores.
pub fn ranking(scores: [i64; 4]) -> (r: [usize; 4])
    ensures
        forall|i: int, j: int| 0 <= i < j < 4 ==> precedes(scores, r[i] as int, r[j] as int),
        forall|s: int| 0 <= s < 4 ==> #[trigger] r[rank_of(scores, s)] == s,
        forall|i: int| 0 <= i < 4 ==> #[trigger] r[i] < 4,
{
    let mut res = [0usize; 4];
    let mut s: usize = 0;
    while s < 4
        invariant
            s <= 4,
            forall|t: int| 0 <= t < 4 ==> 0 <= #[trigger] rank_of(scores, t) < 4,
            forall|t: int| 0 <= t < s ==> #[trigger] res[rank_of(scores, t)] == t,
            forall|i: int| 0 <= i < 4 ==> #[trigger] res[i] < 4,
        decreases 4 - s,
    {
        let mut k: usize = 0;
        let mut t: usize = 0;
        while t < 4
            invariant
                s < 4,
                t <= 4,
                k == (if t > 0 && precedes(scores, 0, s as int) { 1int } else { 0int }) + (if t > 1
                    && precedes(scores, 1, s as int) {
                    1int
                } else {
                    0int
                }) + (if t > 2 && precedes(scores, 2, s as int) { 1int } else { 0int }) + (if t > 3
                    && precedes(scores, 3, s as int) {
                    1int
                } else {
                    0int
                }),
            decreases 4 - t,
        {
            if scores[t] > scores[s] || (scores[t] == scores[s] && t < s) {
                k = k + 1;
            }
            t = t + 1;
        }
        res[k] = s;
        s = s + 1;
    }
    proof {
        assert forall|i: int, j: int| 0 <= i < j < 4 implies precedes(scores, res[i] as int, res[j] as int) by {
            assert(res[rank_of(scores, 0)] == 0);
            assert(res[rank_of(scores, 1)] == 1);
            assert(res[rank_of(scores, 2)] == 2);
            assert(res[rank_of(scores, 3)] == 3);
        }
    }
    res
}

/// Whatever a discard leads to, the four score changes it brings sum to
/// zero.
pub proof fn lemma_discard_keeps_score_total(round: Round, seat: int, card: u8, next: Round, d: Discarded)
    requires
        0 <= seat < 4,
        round.discard_step(seat, card, next, d),
    ensures
        score_delta(d, 0) + score_delta(d, 1) + score_delta(d, 2) + score_delta(d, 3) == 0,
{
    lemma_score_deltas_sum_to_zero(d);
}

pub struct Game {
    pub round: Round,
    pub round_id: usize,
    pub players: [u64; 4],
    pub players_score: [i64; 4],
    pub round_records: Vec<RoundRecord>,
}

impl Game {
    /// Scores stay within what the rounds played so far can have moved.
    pub open spec fn scores_bounded(&self) -> bool {
        forall|s: int|
            0 <= s < 4 ==> -3 * self.round_id <= #[trigger] self.players_score[s] <= 3
                * self.round_id
    }

    /// A session in play: its current round is well formed and has its
    /// record open as the last one.
    pub open spec fn wf(&self) -> bool {
        &&& self.round.wf()
        &&& self.round_id < 4
        &&& self.round_records@.len() == self.round_id + 1
        &&& record_is(self.round_records@.last(), self.round.tiles(), None, None, self.round_records@.last().discard@)
        &&& self.scores_bounded()
    }

    /// What the session is after the current seat, user `uid`, discarded
    /// `card`, the round having gone to `mid` with outcome `d`: `next` is
    /// the session, `out1` the outbox that was `out0`, and `ended` whether
    /// the session is over.
    pub open spec fn discard_effect(
        &self,
        uid: u64,
        card: u8,
        mid: Round,
        d: Discarded,
        next: Game,
        out0: Seq<(u64, ServerMessage)>,
        out1: Seq<(u64, ServerMessage)>,
        ended: bool,
    ) -> bool {
        match d {
            Discarded::NotCurrentPlayer => !ended && next == *self && out1 == out0.push(
                (uid, ServerMessage::NotCurrentPlayer),
            ),
            Discarded::NotHaveCard => !ended && next == *self && out1 == out0.push(
                (uid, ServerMessage::NotHaveCard),
            ),
            _ => {
                let players = self.players;
                let msgs = out0 + to_all(players, ServerMessage::Discard((uid, card)));
                let k = self.round_id as int;
                let rec = self.round_records@[k];
                &&& next.players == players
                &&& forall|i: int| 0 <= i < k ==> #[trigger] next.round_records@[i] == self.round_records@[i]
                &&& match d {
                    Discarded::Drew { seat, card: t } => {
                        &&& !ended
                        &&& next.round == mid
                        &&& next.round_id == self.round_id
                        &&& next.players_score == self.players_score
                        &&& next.round_records@.len() == self.round_records@.len()
                        &&& record_is(next.round_records@[k], rec.stack@, None, None, rec.discard@.push(card))
                        &&& out1 == msgs.push((players[seat as int], ServerMessage::GetCard(t)))
                    },
                    _ => {
                        let winner = match d {
                            Discarded::WinByDiscard { winner, .. } => Some(winner),
                            Discarded::WinBySelfDraw { winner, .. } => Some(winner),
                            _ => None,
                        };
                        let loser = match d {
                            Discarded::WinByDiscard { loser, .. } => Some(loser),
                            _ => None,
                        };
                        let end_msgs = match d {
                            Discarded::WinByDiscard { winner, loser } => to_all(
                                players,
                                ServerMessage::WinOne((players[winner as int], players[loser as int])),
                            ),
                            Discarded::WinBySelfDraw { winner, card: t } => seq![
                                (players[winner as int], ServerMessage::GetCard(t)),
                            ] + to_all(players, ServerMessage::WinAll(players[winner as int])),
                            _ => to_all(players, ServerMessage::Tie),
                        };
                        &&& forall|s: int|
                            0 <= s < 4 ==> #[trigger] next.players_score[s] == self.players_score[s]
                                + score_delta(d, s)
                        &&& record_is(next.round_records@[k], rec.stack@, winner, loser, rec.discard@.push(card))
                        &&& next.round_id == self.round_id + 1
                        &&& ended == (next.round_id == 4)
                        &&& if ended {
                            &&& next.round_records@.len() == 4
                            &&& out1 == msgs + end_msgs
                        } else {
                            &&& next.round.current() == next.round_id
                            &&& next.round.cursor() == 53
                            &&& next.round_records@.len() == next.round_id + 1
                            &&& record_is(next.round_records@[k + 1], next.round.tiles(), None, None, Seq::empty())
                            &&& out1 == msgs + end_msgs + round_start_msgs(players, next.round_id, next.round)
                        }
                    },
                }
            },
        }
    }

    /// A session for the four users `players`, seat by seat, with the first
    /// round dealt; the round is announced by `round_start`.
    pub fn new(players: [u64; 4]) -> (r: Game)
        ensures
            r.round.wf(),
            is_full_tile_set(r.round.tiles()),
            r.round.current() == 0,
            r.round.cursor() == 53,
            r.round_id == 0,
            r.players == players,
            forall|s: int| 0 <= s < 4 ==> #[trigger] r.players_score[s] == 0,
            r.round_records@.len() == 0,
    {
        Game {
            round: Round::new(0),
            round_id: 0,
            players,
            players_score: [0i64; 4],
            round_records: Vec::new(),
        }
    }

    /// The seat of user `uid`, if it plays in this session.
    pub fn seat_of(&self, uid: u64) -> (r: Option<usize>)
        ensures
            r == match seat_spec(self.players, uid) {
                Some(s) => Some(s as usize),
                None => None::<usize>,
            },
            r matches Some(s) ==> s < 4 && self.players[s as int] == uid,
    {
        proof {
            lemma_last_seat_range(self.players, uid, 4);
        }
        let mut player: Option<usize> = None;
        let mut i: usize = 0;
        while i < 4
            invariant
                i <= 4,
                player == match last_seat(self.players, uid, i as int) {
                    Some(s) => Some(s as usize),
                    None => None::<usize>,
                },
            decreases 4 - i,
        {
            if self.players[i] == uid {
                player = Some(i);
            }
            i = i + 1;
        }
        player
    }

    /// Sends `msg` to the user at seat `player`.
    pub fn send(&self, player: usize, msg: ServerMessage, out: &mut Vec<(u64, ServerMessage)>)
        requires
            player < 4,
        ensures
            final(out)@ == old(out)@.push((self.players[player as int], msg)),
    {
        out.push((self.players[player], msg));
    }

    /// Sends `msg` to all four users, in seat order.
    pub fn broadcast(&self, msg: ServerMessage, out: &mut Vec<(u64, ServerMessage)>)
        ensures
            final(out)@ == old(out)@ + to_all(self.players, msg),
    {
        let ghost start = out@;
        let mut j: usize = 0;
        while j < 4
            invariant
                j <= 4,
                out@ == start + to_all(self.players, msg).subrange(0, j as int),
            decreases 4 - j,
        {
            self.send(j, msg, out);
            assert(to_all(self.players, msg).subrange(0, j + 1) =~= to_all(
                self.players,
                msg,
            ).subrange(0, j as int).push((self.players[j as int], msg)));
            j = j + 1;
        }
        assert(to_all(self.players, msg).subrange(0, 4) =~= to_all(self.players, msg));
    }

    /// Round index, seats and scores.
    pub open spec fn game_info_spec(&self) -> GameInfo {
        GameInfo {
            round_id: self.round_id,
            players: self.players,
            players_score: self.players_score,
        }
    }

    /// Round index, seats and scores.
    pub fn game_info(&self) -> (r: GameInfo)
        ensures
            r == self.game_info_spec(),
    {
        GameInfo { round_id: self.round_id, players: self.players, players_score: self.players_score }
    }

    /// Announces the session to all four users, then starts its round.
    pub fn game_start(&mut self, out: &mut Vec<(u64, ServerMessage)>)
        requires
            old(self).round.wf(),
            old(self).round_id < 4,
            old(self).round_records@.len() == old(self).round_id,
            old(self).scores_bounded(),
        ensures
            final(self).wf(),
            final(self).round == old(self).round,
            final(self).round_id == old(self).round_id,
            final(self).players == old(self).players,
            final(self).players_score == old(self).players_score,
            final(self).round_records@ == old(self).round_records@.push(
                final(self).round_records@.last(),
            ),
            record_is(
                final(self).round_records@.last(),
                old(self).round.tiles(),
                None,
                None,
                Seq::empty(),
            ),
            final(out)@ == old(out)@ + to_all(
                old(self).players,
                ServerMessage::GameInfoSync(old(self).game_info_spec()),
            ) + round_start_msgs(old(self).players, old(self).round_id, old(self).round),
    {
        let info = self.game_info();
        self.broadcast(ServerMessage::GameInfoSync(info), out);
        self.round_start(out);
    }

    /// Tells every user the round index and the user's hand, and opens the
    /// round's record.
    pub fn round_start(&mut self, out: &mut Vec<(u64, ServerMessage)>)
        requires
            old(self).round.wf(),
            old(self).round_id < 4,
            old(self).round_records@.len() == old(self).round_id,
            old(self).scores_bounded(),
        ensures
            final(self).wf(),
            final(self).round == old(self).round,
            final(self).round_id == old(self).round_id,
            final(self).players == old(self).players,
            final(self).players_score == old(self).players_score,
            final(self).round_records@ == old(self).round_records@.push(
                final(self).round_records@.last(),
            ),
            record_is(
                final(self).round_records@.last(),
                old(self).round.tiles(),
                None,
                None,
                Seq::empty(),
            ),
            final(out)@ == old(out)@ + round_start_msgs(
                old(self).players,
                old(self).round_id,
                old(self).round,
            ),
    {
        let ghost start = out@;
        let msgs = Ghost(round_start_msgs(self.players, self.round_id, self.round));
        let mut i: usize = 0;
        while i < 4
            invariant
                i <= 4,
                msgs@ == round_start_msgs(self.players, self.round_id, self.round),
                out@ == start + msgs@.subrange(0, 2 * i),
            decreases 4 - i,
        {
            self.send(i, ServerMessage::RoundStart(self.round_id), out);
            let cards = self.round.cards(i);
            self.send(i, ServerMessage::CardSync(cards), out);
            assert(msgs@.subrange(0, 2 * i + 2) =~= msgs@.subrange(0, 2 * i).push(
                (self.players[i as int], ServerMessage::RoundStart(self.round_id)),
            ).push((self.players[i as int], ServerMessage::CardSync(cards))));
            i = i + 1;
        }
        assert(msgs@.subrange(0, 8) =~= msgs@);
        self.round_records.push(
            RoundRecord {
                stack: self.round.stack_order(),
                winner_seat: None,
                loser_seat: None,
                discard: Vec::new(),
            },
        );
    }

    /// Adds `card` to the discards of the open round's record.
    fn record_discard(&mut self, card: u8)
        requires
            old(self).round_records@.len() > 0,
        ensures
            final(self).round == old(self).round,
            final(self).round_id == old(self).round_id,
            final(self).players == old(self).players,
            final(self).players_score == old(self).players_score,
            final(self).round_records@.len() == old(self).round_records@.len(),
            forall|i: int|
                0 <= i < old(self).round_records@.len() - 1 ==> #[trigger] final(self).round_records@[i] == old(self).round_records@[i],
            record_is(
                final(self).round_records@.last(),
                old(self).round_records@.last().stack@,
                old(self).round_records@.last().winner_seat,
                old(self).round_records@.last().loser_seat,
                old(self).round_records@.last().discard@.push(card),
            ),
    {
        match self.round_records.pop() {
            Some(rec) => {
                let mut rec = rec;
                rec.discard.push(card);
                self.round_records.push(rec);
            },
            None => {},
        }
    }

    /// Writes the outcome into the open round's record.
    fn record_outcome(&mut self, winner: Option<usize>, loser: Option<usize>)
        requires
            old(self).round_records@.len() > 0,
        ensures
            final(self).round == old(self).round,
            final(self).round_id == old(self).round_id,
            final(self).players == old(self).players,
            final(self).players_score == old(self).players_score,
            final(self).round_records@.len() == old(self).round_records@.len(),
            forall|i: int|
                0 <= i < old(self).round_records@.len() - 1 ==> #[trigger] final(self).round_records@[i] == old(self).round_records@[i],
            record_is(
                final(self).round_records@.last(),
                old(self).round_records@.last().stack@,
                winner,
                loser,
                old(self).round_records@.last().discard@,
            ),
    {
        match self.round_records.pop() {
            Some(rec) => {
                let mut rec = rec;
                rec.winner_seat = winner;
                rec.loser_seat = loser;
                self.round_records.push(rec);
            },
            None => {},
        }
    }

    /// Moves on to the next round, dealt by the seat of its index; returns
    /// whether the last round was played.
    fn next_round(&mut self, out: &mut Vec<(u64, ServerMessage)>) -> (ended: bool)
        requires
            old(self).round_id < 4,
            old(self).round_records@.len() == old(self).round_id + 1,
            forall|s: int|
                0 <= s < 4 ==> -3 * (old(self).round_id + 1) <= #[trigger] old(self).players_score[s]
                    <= 3 * (old(self).round_id + 1),
        ensures
            final(self).round_id == old(self).round_id + 1,
            ended == (final(self).round_id == 4),
            final(self).players == old(self).players,
            final(self).players_score == old(self).players_score,
            ended ==> final(self).round_records@ == old(self).round_records@ && final(out)@ == old(out)@,
            !ended ==> {
                &&& final(self).wf()
                &&& final(self).round.current() == final(self).round_id
                &&& final(self).round.cursor() == 53
                &&& final(self).round_records@ == old(self).round_records@.push(
                    final(self).round_records@.last(),
                )
                &&& record_is(
                    final(self).round_records@.last(),
                    final(self).round.tiles(),
                    None,
                    None,
                    Seq::empty(),
                )
                &&& final(out)@ == old(out)@ + round_start_msgs(
                    final(self).players,
                    final(self).round_id,
                    final(self).round,
                )
            },
    {
        self.round_id = self.round_id + 1;
        if self.round_id == 4 {
            return true;
        }
        self.round = Round::new(self.round_id);
        self.round_start(out);
        false
    }

    /// Ends the round won by seat `win_player` on the discard of seat
    /// `lose_player`.
    fn win_one(&mut self, win_player: usize, lose_player: usize, out: &mut Vec<(u64, ServerMessage)>) -> (ended: bool)
        requires
            old(self).round_id < 4,
            old(self).round_records@.len() == old(self).round_id + 1,
            old(self).scores_bounded(),
            win_player < 4,
            lose_player < 4,
            win_player != lose_player,
        ensures
            final(self).round_id == old(self).round_id + 1,
            ended == (final(self).round_id == 4),
            final(self).players == old(self).players,
            forall|s: int|
                0 <= s < 4 ==> #[trigger] final(self).players_score[s] == old(self).players_score[s]
                    + score_delta(Discarded::WinByDiscard { winner: win_player, loser: lose_player }, s),
            ({
                let rec = old(self).round_records@.last();
                let msgs = old(out)@ + to_all(
                    old(self).players,
                    ServerMessage::WinOne((old(self).players[win_player as int], old(self).players[lose_player as int])),
                );
                &&& forall|i: int| 0 <= i < old(self).round_id ==> #[trigger] final(self).round_records@[i] == old(self).round_records@[i]
                &&& record_is(final(self).round_records@[old(self).round_id as int], rec.stack@, Some(win_player), Some(lose_player), rec.discard@)
                &&& ended ==> final(self).round_records@.len() == 4 && final(out)@ == msgs
                &&& !ended ==> {
                    &&& final(self).wf()
                    &&& final(self).round.current() == final(self).round_id
                    &&& final(self).round.cursor() == 53
                    &&& final(self).round_records@.len() == final(self).round_id + 1
                    &&& record_is(final(self).round_records@.last(), final(self).round.tiles(), None, None, Seq::empty())
                    &&& final(out)@ == msgs + round_start_msgs(final(self).players, final(self).round_id, final(self).round)
                }
            }),
    {
        self.players_score[win_player] = self.players_score[win_player] + 1;
        self.players_score[lose_player] = self.players_score[lose_player] - 1;
        let msg = ServerMessage::WinOne((self.players[win_player], self.players[lose_player]));
        self.broadcast(msg, out);
        self.record_outcome(Some(win_player), Some(lose_player));
        self.next_round(out)
    }

    /// Ends the round won by seat `win_player` on its own draw.
    fn win_all(&mut self, win_player: usize, out: &mut Vec<(u64, ServerMessage)>) -> (ended: bool)
        requires
            old(self).round_id < 4,
            old(self).round_records@.len() == old(self).round_id + 1,
            old(self).scores_bounded(),
            win_player < 4,
        ensures
            final(self).round_id == old(self).round_id + 1,
            ended == (final(self).round_id == 4),
            final(self).players == old(self).players,
            forall|s: int|
                0 <= s < 4 ==> #[trigger] final(self).players_score[s] == old(self).players_score[s]
                    + score_delta(Discarded::WinBySelfDraw { winner: win_player, card: 0 }, s),
            ({
                let rec = old(self).round_records@.last();
                let msgs = old(out)@ + to_all(
                    old(self).players,
                    ServerMessage::WinAll(old(self).players[win_player as int]),
                );
                &&& forall|i: int| 0 <= i < old(self).round_id ==> #[trigger] final(self).round_records@[i] == old(self).round_records@[i]
                &&& record_is(final(self).round_records@[old(self).round_id as int], rec.stack@, Some(win_player), rec.loser_seat, rec.discard@)
                &&& ended ==> final(self).round_records@.len() == 4 && final(out)@ == msgs
                &&& !ended ==> {
                    &&& final(self).wf()
                    &&& final(self).round.current() == final(self).round_id
                    &&& final(self).round.cursor() == 53
                    &&& final(self).round_records@.len() == final(self).round_id + 1
                    &&& record_is(final(self).round_records@.last(), final(self).round.tiles(), None, None, Seq::empty())
                    &&& final(out)@ == msgs + round_start_msgs(final(self).players, final(self).round_id, final(self).round)
                }
            }),
    {
        self.players_score[win_player] = self.players_score[win_player] + 3;
        let mut i: usize = 0;
        while i < 4
            invariant
                i <= 4,
                win_player < 4,
                old(self).scores_bounded(),
                old(self).round_id < 4,
                self.round_id == old(self).round_id,
                self.round == old(self).round,
                self.players == old(self).players,
                self.round_records == old(self).round_records,
                forall|s: int|
                    0 <= s < 4 ==> #[trigger] self.players_score[s] == old(self).players_score[s]
                        + if s == win_player {
                        3int
                    } else if s < i {
                        -1int
                    } else {
                        0int
                    },
            decreases 4 - i,
        {
            if i != win_player {
                self.players_score[i] = self.players_score[i] - 1;
            }
            i = i + 1;
        }
        let msg = ServerMessage::WinAll(self.players[win_player]);
        self.broadcast(msg, out);
        let loser = self.round_records[self.round_id].loser_seat;
        self.record_outcome(Some(win_player), loser);
        self.next_round(out)
    }

    /// Handles message `msg` from user `uid`, a player of this session, and
    /// returns whether the session is over.
    ///
    /// A sync request is answered to the sender alone. A discard goes to
    /// the round; a rejected one is answered to the sender alone; an
    /// accepted one is shown to everyone, recorded, and settled as the
    /// round's outcome requires: a drawn tile goes to the drawer, a win or a
    /// tie is announced, scored and recorded, and the next round starts
    /// unless this was the last.
    pub fn handle_message(&mut self, msg: ClientMessage, uid: u64, out: &mut Vec<(u64, ServerMessage)>) -> (ended: bool)
        requires
            old(self).wf(),
            seat_spec(old(self).players, uid) is Some,
        ensures
            !ended ==> final(self).wf(),
            ({
                let seat = seat_spec(old(self).players, uid)->Some_0;
                match msg {
                    ClientMessage::RequestGameSync => {
                        &&& !ended
                        &&& *final(self) == *old(self)
                        &&& final(out)@ == old(out)@.push((uid, ServerMessage::GameInfoSync(old(self).game_info_spec())))
                    },
                    ClientMessage::RequestCardSync => {
                        &&& !ended
                        &&& *final(self) == *old(self)
                        &&& final(out)@ == old(out)@.push((uid, ServerMessage::CardSync(old(self).round.cards_at(seat))))
                    },
                    ClientMessage::Discard(card) => exists|mid: Round, d: Discarded|
                        #[trigger] old(self).round.discard_step(seat, card, mid, d) && old(self).discard_effect(
                            uid,
                            card,
                            mid,
                            d,
                            *final(self),
                            old(out)@,
                            final(out)@,
                            ended,
                        ),
                }
            }),
    {
        let player = match self.seat_of(uid) {
            Some(p) => p,
            None => {
                return false;
            },
        };
        proof {
            lemma_last_seat_range(self.players, uid, 4);
        }
        match msg {
            ClientMessage::RequestGameSync => {
                let info = self.game_info();
                out.push((uid, ServerMessage::GameInfoSync(info)));
                false
            },
            ClientMessage::RequestCardSync => {
                let cards = self.round.cards(player);
                out.push((uid, ServerMessage::CardSync(cards)));
                false
            },
            ClientMessage::Discard(card) => {
                let ghost before = *self;
                let ghost out0 = out@;
                proof {
                    lemma_last_seat_range(self.players, uid, 4);
                    assert(seat_spec(before.players, uid)->Some_0 == player as int);
                }
                let d = self.round.discard(player, card);
                let ghost mid = self.round;
                match d {
                    Discarded::NotCurrentPlayer => {
                        out.push((uid, ServerMessage::NotCurrentPlayer));
                        assert(*self == before);
                        assert(before.round.discard_step(player as int, card, mid, d));
                        assert(before.discard_effect(uid, card, mid, d, *self, out0, out@, false));
                        return false;
                    },
                    Discarded::NotHaveCard => {
                        out.push((uid, ServerMessage::NotHaveCard));
                        assert(*self == before);
                        assert(before.round.discard_step(player as int, card, mid, d));
                        assert(before.discard_effect(uid, card, mid, d, *self, out0, out@, false));
                        return false;
                    },
                    _ => {},
                }
                self.broadcast(ServerMessage::Discard((uid, card)), out);
                self.record_discard(card);
                let ghost after_record = *self;
                let ghost msgs = out@;
                match d {
                    Discarded::WinByDiscard { winner, loser } => {
                        let ended = self.win_one(winner, loser, out);
                        assert(before.discard_effect(uid, card, mid, d, *self, out0, out@, ended));
                        ended
                    },
                    Discarded::Tie => {
                        let ended = self.tie(out);
                        assert(before.discard_effect(uid, card, mid, d, *self, out0, out@, ended));
                        ended
                    },
                    Discarded::WinBySelfDraw { winner, card: t } => {
                        self.send(winner, ServerMessage::GetCard(t), out);
                        let ghost drew = out@;
                        let ended = self.win_all(winner, out);
                        proof {
                            let players = before.players;
                            let a = seq![(players[winner as int], ServerMessage::GetCard(t))];
                            let b = to_all(players, ServerMessage::WinAll(players[winner as int]));
                            assert(drew == msgs + a);
                            assert(drew + b =~= msgs + (a + b));
                            if !ended {
                                let c = round_start_msgs(self.players, self.round_id, self.round);
                                assert(drew + b + c =~= msgs + (a + b) + c);
                            }
                            assert(after_record.round_records@.last().loser_seat == None::<usize>);
                        }
                        assert(before.discard_effect(uid, card, mid, d, *self, out0, out@, ended));
                        ended
                    },
                    Discarded::Drew { seat, card: t } => {
                        self.send(seat, ServerMessage::GetCard(t), out);
                        assert(before.discard_effect(uid, card, mid, d, *self, out0, out@, false));
                        false
                    },
                    _ => false,
                }
            },
        }
    }

    /// Ends the round in a tie.
    fn tie(&mut self, out: &mut Vec<(u64, ServerMessage)>) -> (ended: bool)
        requires
            old(self).round_id < 4,
            old(self).round_records@.len() == old(self).round_id + 1,
            old(self).scores_bounded(),
        ensures
            final(self).round_id == old(self).round_id + 1,
            ended == (final(self).round_id == 4),
            final(self).players == old(self).players,
            final(self).players_score == old(self).players_score,
            ended ==> final(self).round_records@ == old(self).round_records@ && final(out)@ == old(out)@ + to_all(old(self).players, ServerMessage::Tie),
            !ended ==> {
                &&& final(self).wf()
                &&& final(self).round.current() == final(self).round_id
                &&& final(self).round.cursor() == 53
                &&& final(self).round_records@ == old(self).round_records@.push(
                    final(self).round_records@.last(),
                )
                &&& record_is(
                    final(self).round_records@.last(),
                    final(self).round.tiles(),
                    None,
                    None,
                    Seq::empty(),
                )
                &&& final(out)@ == old(out)@ + to_all(old(self).players, ServerMessage::Tie)
                    + round_start_msgs(final(self).players, final(self).round_id, final(self).round)
            },
    {
        self.broadcast(ServerMessage::Tie, out);
        self.next_round(out)
    }
}

} // verus!
