//! One round: the tile stack, the turn, and the four hands.
use vstd::prelude::*;

use crate::cards::Cards;
use crate::check_win::{check, is_winning};
use crate::stack::{count_in_prefix, is_full_tile_set, lemma_draw_counts, lemma_nothing_drawn, Stack};

verus! {

/// How many tiles of kind `k` seat `s` gets from the first `n` tiles of the
/// deal, which go round the table one by one starting at seat 0.
pub open spec fn deal_count(tiles: Seq<u8>, s: int, n: int, k: u8) -> nat
    decreases n,
{
    if n <= 0 {
        0
    } else {
        deal_count(tiles, s, n - 1, k) + if (n - 1) % 4 == s && tiles[n - 1] == k {
            1nat
        } else {
            0nat
        }
    }
}

/// The seat after `s` in turn order.
pub open spec fn next_seat(s: int) -> int {
    (s + 1) % 4
}

/// What a discard led to.
#[derive(Clone, Copy, Debug, PartialEq, Eq, Structural)]
pub enum Discarded {
    /// The seat is not on turn; nothing changed.
    NotCurrentPlayer,
    /// The seat holds no such tile; nothing changed.
    NotHaveCard,
    /// Another seat completes its hand with the discarded tile.
    WinByDiscard { winner: usize, loser: usize },
    /// The stack is exhausted and nobody claimed the tile.
    Tie,
    /// The next seat drew `card` and completed its hand with it.
    WinBySelfDraw { winner: usize, card: u8 },
    /// The next seat drew `card` and is now on turn.
    Drew { seat: usize, card: u8 },
}

impl Discarded {
    /// Whether the round is over.
    pub open spec fn ends_round(self) -> bool {
        match self {
            Discarded::WinByDiscard { .. } | Discarded::Tie | Discarded::WinBySelfDraw { .. } => true,
            _ => false,
        }
    }
}

pub struct Round {
    stack: Stack,
    current_player: usize,
    players_cards: [Cards; 4],
}

impl Round {
    /// The hand of seat `s`.
    pub closed spec fn hand(&self, s: int) -> Seq<u8> {
        self.players_cards@[s]@
    }

    /// The hand of seat `s`, as a value.
    pub closed spec fn cards_at(&self, s: int) -> Cards {
        self.players_cards@[s]
    }

    /// The seat on turn.
    pub closed spec fn current(&self) -> int {
        self.current_player as int
    }

    /// The stack's tiles in drawing order.
    pub closed spec fn tiles(&self) -> Seq<u8> {
        self.stack.tiles()
    }

    /// How many tiles have been drawn from the stack.
    pub closed spec fn cursor(&self) -> int {
        self.stack.cursor()
    }

    /// How many tiles of kind `k` the four hands hold together.
    pub open spec fn held(&self, k: int) -> int {
        self.hand(0)[k] + self.hand(1)[k] + self.hand(2)[k] + self.hand(3)[k]
    }

    /// The stack holds every tile once, a seat is on turn, and the hands hold no
    /// tile of a kind that was not drawn.
    pub closed spec fn wf(&self) -> bool {
        &&& self.stack.wf()
        &&& is_full_tile_set(self.tiles())
        &&& self.current_player < 4
        &&& forall|s: int| 0 <= s < 4 ==> #[trigger] self.hand(s).len() == 34
        &&& forall|k: u8|
            k < 34 ==> #[trigger] self.held(k as int) <= count_in_prefix(
                self.tiles(),
                self.cursor(),
                k,
            )
    }

    /// Whether seat `c` completes its hand with `card`.
    pub open spec fn completes(&self, c: int, card: u8) -> bool {
        is_winning(self.hand(c).update(card as int, (self.hand(c)[card as int] + 1) as u8))
    }

    /// The first seat after `seat`, in turn order, that completes its hand
    /// with the tile `card` that `seat` discards.
    pub open spec fn claimer(&self, seat: int, card: u8) -> Option<int> {
        if self.completes((seat + 1) % 4, card) {
            Some((seat + 1) % 4)
        } else if self.completes((seat + 2) % 4, card) {
            Some((seat + 2) % 4)
        } else if self.completes((seat + 3) % 4, card) {
            Some((seat + 3) % 4)
        } else {
            None
        }
    }

    /// The hand of seat `s` once `seat` has given up one `card`.
    pub open spec fn hand_after_discard(&self, seat: int, card: u8, s: int) -> Seq<u8> {
        if s == seat {
            self.hand(s).update(card as int, (self.hand(s)[card as int] - 1) as u8)
        } else {
            self.hand(s)
        }
    }

    /// Deals 13 tiles to every seat in turn, then one more to the dealer
    /// `host`, who is then on turn.
    pub fn new(host: usize) -> (r: Round)
        requires
            host < 4,
        ensures
            is_full_tile_set(r.tiles()),
            r.wf(),
            r.current() == host,
            r.cursor() == 53,
            forall|s: int, k: u8|
                0 <= s < 4 && k < 34 ==> #[trigger] r.hand(s)[k as int] == deal_count(
                    r.tiles(),
                    s,
                    52,
                    k,
                ) + if s == host && r.tiles()[52] == k {
                    1nat
                } else {
                    0nat
                },
    {
        Round::deal(Stack::random(), host)
    }

    /// A round dealt from the tiles of `order` in that order, if `order`
    /// holds each kind exactly four times.
    pub fn from_order(order: [u8; 136], host: usize) -> (r: Option<Round>)
        requires
            host < 4,
        ensures
            r is Some <==> is_full_tile_set(order@),
            r matches Some(rd) ==> rd.wf() && rd.tiles() == order@ && rd.current() == host
                && rd.cursor() == 53,
            r matches Some(rd) ==> forall|s: int, k: u8|
                0 <= s < 4 && k < 34 ==> #[trigger] rd.hand(s)[k as int] == deal_count(
                    order@,
                    s,
                    52,
                    k,
                ) + if s == host && order@[52] == k {
                    1nat
                } else {
                    0nat
                },
    {
        match Stack::from_order(order) {
            Some(stack) => Some(Round::deal(stack, host)),
            None => None,
        }
    }

    fn deal(stack: Stack, host: usize) -> (r: Round)
        requires
            host < 4,
            stack.wf(),
            stack.cursor() == 0,
        ensures
            r.tiles() == stack.tiles(),
            r.wf(),
            r.current() == host,
            r.cursor() == 53,
            forall|s: int, k: u8|
                0 <= s < 4 && k < 34 ==> #[trigger] r.hand(s)[k as int] == deal_count(
                    r.tiles(),
                    s,
                    52,
                    k,
                ) + if s == host && r.tiles()[52] == k {
                    1nat
                } else {
                    0nat
                },
    {
        let ghost tiles0 = stack.tiles();
        let mut stack = stack;
        let mut players_cards = [Cards::new([0u8; 34]); 4];
        let mut n: usize = 0;
        proof {
            assert forall|k: u8| #[trigger] count_in_prefix(stack.tiles(), 0, k) == 0 by {
                lemma_nothing_drawn(stack.tiles(), k);
            }
        }
        while n < 52
            invariant
                n <= 52,
                stack.wf(),
                stack.tiles() == tiles0,
                stack.cursor() == n,
                forall|s: int| 0 <= s < 4 ==> #[trigger] players_cards@[s]@.len() == 34,
                forall|s: int, k: u8|
                    0 <= s < 4 && k < 34 ==> #[trigger] players_cards@[s]@[k as int]
                        == deal_count(stack.tiles(), s, n as int, k),
                forall|k: u8|
                    k < 34 ==> #[trigger] count_in_prefix(stack.tiles(), n as int, k)
                        == players_cards@[0]@[k as int] + players_cards@[1]@[k as int]
                        + players_cards@[2]@[k as int] + players_cards@[3]@[k as int],
            decreases 52 - n,
        {
            let seat = n % 4;
            let ghost tiles = stack.tiles();
            let ghost before = players_cards@;
            proof {
                lemma_draw_counts(tiles, n as int, tiles[n as int]);
            }
            let t = stack.next();
            let mut c = players_cards[seat];
            c.insert(t);
            players_cards[seat] = c;
            proof {
                assert forall|k: u8| k < 34 implies #[trigger] count_in_prefix(
                    tiles,
                    n + 1,
                    k,
                ) == players_cards@[0]@[k as int] + players_cards@[1]@[k as int]
                    + players_cards@[2]@[k as int] + players_cards@[3]@[k as int] by {
                    lemma_draw_counts(tiles, n as int, k);
                }
            }
            n = n + 1;
        }
        let ghost tiles = stack.tiles();
        proof {
            lemma_draw_counts(tiles, 52, tiles[52]);
        }
        let t = stack.next();
        let mut c = players_cards[host];
        c.insert(t);
        players_cards[host] = c;
        let r = Round { stack, current_player: host, players_cards };
        proof {
            assert forall|k: u8| k < 34 implies #[trigger] r.held(k as int) <= count_in_prefix(
                r.tiles(),
                r.cursor(),
                k,
            ) by {
                lemma_draw_counts(tiles, 52, k);
            }
        }
        r
    }

    proof fn lemma_held_bounded(&self, k: u8)
        requires
            self.wf(),
            k < 34,
        ensures
            self.held(k as int) <= 4,
            forall|s: int| 0 <= s < 4 ==> #[trigger] self.hand(s)[k as int] <= 4,
    {
        if self.cursor() == 0 {
            lemma_nothing_drawn(self.tiles(), k);
        } else {
            lemma_draw_counts(self.tiles(), self.cursor() - 1, k);
        }
        assert(self.held(k as int) <= count_in_prefix(self.tiles(), self.cursor(), k));
        assert(self.tiles().to_multiset().count(k) == 4);
        assert forall|s: int| 0 <= s < 4 implies #[trigger] self.hand(s)[k as int] <= 4 by {
            assert(self.hand(0)[k as int] >= 0 && self.hand(1)[k as int] >= 0);
            assert(self.hand(2)[k as int] >= 0 && self.hand(3)[k as int] >= 0);
        }
    }

    /// The seat on turn.
    pub fn current_player(&self) -> (r: usize)
        requires
            self.wf(),
        ensures
            r == self.current(),
            r < 4,
    {
        self.current_player
    }

    /// The hand of seat `seat`.
    pub fn cards(&self, seat: usize) -> (r: Cards)
        requires
            seat < 4,
        ensures
            r@ == self.hand(seat as int),
            r == self.cards_at(seat as int),
    {
        self.players_cards[seat]
    }

    /// The stack's tiles in drawing order.
    pub fn stack_order(&self) -> (r: [u8; 136])
        ensures
            r@ == self.tiles(),
    {
        self.stack.order()
    }

    /// How many tiles have been drawn from the stack.
    pub fn drawn(&self) -> (r: usize)
        ensures
            r == self.cursor(),
    {
        self.stack.drawn()
    }

    /// The first seat after `seat`, in turn order, whose hand the tile
    /// `card` completes.
    fn first_claimer(&self, seat: usize, card: u8) -> (r: Option<usize>)
        requires
            self.wf(),
            seat < 4,
            card < 34,
        ensures
            r == match self.claimer(seat as int, card) {
                Some(c) => Some(c as usize),
                None => None::<usize>,
            },
    {
        let mut i: usize = 1;
        while i < 4
            invariant
                1 <= i <= 4,
                seat < 4,
                card < 34,
                self.wf(),
                i > 1 ==> !self.completes((seat + 1) % 4, card),
                i > 2 ==> !self.completes((seat + 2) % 4, card),
                i > 3 ==> !self.completes((seat + 3) % 4, card),
            decreases 4 - i,
        {
            let cp = (seat + i) % 4;
            proof {
                self.lemma_held_bounded(card);
            }
            let h = self.players_cards[cp].copy_insert(card);
            if check(&h) {
                return Some(cp);
            }
            i = i + 1;
        }
        None
    }

    /// Draws the next tile of the stack into the hand of seat `seat`.
    fn draw_for(&mut self, seat: usize) -> (r: u8)
        requires
            old(self).wf(),
            seat < 4,
            old(self).cursor() < 136,
        ensures
            final(self).wf(),
            final(self).tiles() == old(self).tiles(),
            final(self).cursor() == old(self).cursor() + 1,
            final(self).current() == old(self).current(),
            r == old(self).tiles()[old(self).cursor()],
            final(self).hand(seat as int) == old(self).hand(seat as int).update(
                r as int,
                (old(self).hand(seat as int)[r as int] + 1) as u8,
            ),
            forall|s: int|
                0 <= s < 4 && s != seat ==> #[trigger] final(self).hand(s) == old(self).hand(s),
    {
        let ghost tiles = self.tiles();
        let ghost cursor = self.cursor();
        let ghost before = *self;
        proof {
            lemma_draw_counts(tiles, cursor, tiles[cursor]);
            self.lemma_held_bounded(tiles[cursor]);
        }
        let t = self.stack.next();
        let mut d = self.players_cards[seat];
        d.insert(t);
        self.players_cards[seat] = d;
        proof {
            assert forall|k: u8| k < 34 implies #[trigger] self.held(k as int) <= count_in_prefix(
                self.tiles(),
                self.cursor(),
                k,
            ) by {
                lemma_draw_counts(tiles, cursor, k);
                assert(before.held(k as int) <= count_in_prefix(tiles, cursor, k));
                assert(self.held(k as int) == before.held(k as int) + if k == t {
                    1int
                } else {
                    0int
                });
            }
        }
        t
    }

    /// The discard of one `card` by `seat` leads from this round to `next`
    /// with `outcome`.
    pub open spec fn discard_step(&self, seat: int, card: u8, next: Round, outcome: Discarded) -> bool {
        if seat != self.current() {
            outcome == Discarded::NotCurrentPlayer && next == *self
        } else if card >= 34 || self.hand(seat)[card as int] == 0 {
            outcome == Discarded::NotHaveCard && next == *self
        } else {
            let tiles = self.tiles();
            let cursor = self.cursor();
            let nx = next_seat(seat);
            &&& next.tiles() == tiles
            &&& match self.claimer(seat, card) {
                Some(c) => {
                    &&& outcome == Discarded::WinByDiscard { winner: c as usize, loser: seat as usize }
                    &&& next.cursor() == cursor
                    &&& forall|s: int|
                        0 <= s < 4 ==> #[trigger] next.hand(s) == self.hand_after_discard(
                            seat,
                            card,
                            s,
                        )
                },
                None => if cursor == 136 {
                    &&& outcome == Discarded::Tie
                    &&& next.cursor() == cursor
                    &&& forall|s: int|
                        0 <= s < 4 ==> #[trigger] next.hand(s) == self.hand_after_discard(
                            seat,
                            card,
                            s,
                        )
                } else {
                    let t = tiles[cursor];
                    let drawn_hand = self.hand(nx).update(
                        t as int,
                        (self.hand(nx)[t as int] + 1) as u8,
                    );
                    &&& next.cursor() == cursor + 1
                    &&& next.hand(nx) == drawn_hand
                    &&& next.hand(seat) == self.hand_after_discard(seat, card, seat)
                    &&& forall|s: int|
                        0 <= s < 4 && s != seat && s != nx ==> #[trigger] next.hand(s)
                            == self.hand(s)
                    &&& if is_winning(drawn_hand) {
                        outcome == Discarded::WinBySelfDraw { winner: nx as usize, card: t }
                    } else {
                        &&& outcome == Discarded::Drew { seat: nx as usize, card: t }
                        &&& next.current() == nx
                    }
                },
            }
        }
    }

    /// Seat `seat` discards one tile of kind `card`.
    ///
    /// A seat off turn, or a tile not held, changes nothing. Otherwise the
    /// tile leaves the hand; the first other seat in turn order that
    /// completes its hand with it wins; else an exhausted stack ends the
    /// round in a tie; else the next seat draws, and wins if its hand is
    /// then complete, or else takes the turn.
    pub fn discard(&mut self, seat: usize, card: u8) -> (r: Discarded)
        requires
            old(self).wf(),
            seat < 4,
        ensures
            final(self).wf(),
            old(self).discard_step(seat as int, card, *final(self), r),
    {
        if seat != self.current_player {
            return Discarded::NotCurrentPlayer;
        }
        if card >= 34 || self.players_cards[seat].count(card) == 0 {
            return Discarded::NotHaveCard;
        }
        let ghost old_round = *self;
        let mut c = self.players_cards[seat];
        c.delete(card);
        self.players_cards[seat] = c;
        assert forall|s: int|
            0 <= s < 4 implies #[trigger] self.hand(s) == old_round.hand_after_discard(
                seat as int,
                card,
                s,
            ) by {}
        assert forall|k: u8| k < 34 implies #[trigger] self.held(k as int) <= old_round.held(
            k as int,
        ) by {}
        assert(self.claimer(seat as int, card) == old_round.claimer(seat as int, card)) by {
            assert(self.hand((seat + 1) % 4) == old_round.hand((seat + 1) % 4));
            assert(self.hand((seat + 2) % 4) == old_round.hand((seat + 2) % 4));
            assert(self.hand((seat + 3) % 4) == old_round.hand((seat + 3) % 4));
        }
        match self.first_claimer(seat, card) {
            Some(cp) => {
                return Discarded::WinByDiscard { winner: cp, loser: seat };
            },
            None => {},
        }
        if self.stack.drawn() == 136 {
            return Discarded::Tie;
        }
        let nx = (seat + 1) % 4;
        let t = self.draw_for(nx);
        assert(nx as int == next_seat(seat as int));
        assert(self.hand(seat as int) == old_round.hand_after_discard(seat as int, card, seat as int));
        if check(&self.players_cards[nx]) {
            return Discarded::WinBySelfDraw { winner: nx, card: t };
        }
        let ghost drawn_round = *self;
        self.current_player = nx;
        assert forall|s: int| 0 <= s < 4 implies #[trigger] self.hand(s) == drawn_round.hand(s) by {}
        assert forall|k: u8| k < 34 implies #[trigger] self.held(k as int) == drawn_round.held(
            k as int,
        ) by {}
        Discarded::Drew { seat: nx, card: t }
    }
}

} // verus!
