use maj_spirit::game::{ranking, Game};
use maj_spirit::round::{Discarded, Round};
use maj_spirit::stack::Stack;
use maj_spirit::ws::{ClientMessage, ServerMessage};

const PLAYERS: [u64; 4] = [101, 102, 103, 104];

fn game_with(order: [u8; 136]) -> (Game, Vec<(u64, ServerMessage)>) {
    let mut game = Game::new(PLAYERS);
    game.round = Round::from_order(order, 0).unwrap();
    let mut out = Vec::new();
    game.round_start(&mut out);
    (game, out)
}

fn sorted_order() -> [u8; 136] {
    let mut order = [0u8; 136];
    for (i, t) in order.iter_mut().enumerate() {
        *t = (i / 4) as u8;
    }
    order
}

fn total(round: &Round, seat: usize) -> u32 {
    round.cards(seat).counts().iter().map(|&c| c as u32).sum()
}

#[test]
fn fresh_stack_holds_four_of_each_kind() {
    let mut stack = Stack::random();
    assert_eq!(stack.drawn(), 0);
    let mut counts = [0u32; 34];
    for &t in stack.order().iter() {
        counts[t as usize] += 1;
    }
    assert!(counts.iter().all(|&c| c == 4));
    let first = stack.order()[0];
    assert_eq!(stack.next(), first);
    assert_eq!(stack.drawn(), 1);
    let second = stack.order()[1];
    assert_eq!(stack.next(), second);
    assert_eq!(stack.drawn(), 2);
}

#[test]
fn shuffle_changes_the_order() {
    let a = Stack::random().order();
    let b = Stack::random().order();
    assert!(a != sorted_order() || b != sorted_order());
    assert!(a != b);
}

#[test]
fn stack_from_order_checks_the_tiles() {
    assert!(Stack::from_order(sorted_order()).is_some());
    let mut bad = sorted_order();
    bad[0] = 1;
    assert!(Stack::from_order(bad).is_none());
    let mut bad = sorted_order();
    bad[135] = 34;
    assert!(Stack::from_order(bad).is_none());
}

#[test]
fn deal_gives_thirteen_and_dealer_fourteen() {
    for host in 0..4 {
        let round = Round::new(host);
        assert_eq!(round.current_player(), host);
        assert_eq!(round.drawn(), 53);
        for seat in 0..4 {
            assert_eq!(total(&round, seat), if seat == host { 14 } else { 13 });
        }
    }
}

#[test]
fn discard_off_turn_changes_nothing() {
    let mut round = Round::from_order(sorted_order(), 0).unwrap();
    let before: Vec<_> = (0..4).map(|s| round.cards(s).counts()).collect();
    assert_eq!(round.discard(1, 0), Discarded::NotCurrentPlayer);
    assert_eq!(round.discard(0, 20), Discarded::NotHaveCard);
    assert_eq!(round.discard(0, 34), Discarded::NotHaveCard);
    let after: Vec<_> = (0..4).map(|s| round.cards(s).counts()).collect();
    assert_eq!(before, after);
    assert_eq!(round.current_player(), 0);
    assert_eq!(round.drawn(), 53);
}

#[test]
fn discard_passes_turn_and_draws() {
    let mut round = Round::from_order(sorted_order(), 0).unwrap();
    assert_eq!(total(&round, 0), 14);
    assert_eq!(round.cards(0).count(13), 1);
    assert_eq!(round.discard(0, 13), Discarded::Drew { seat: 1, card: 13 });
    assert_eq!(round.current_player(), 1);
    assert_eq!(round.drawn(), 54);
    assert_eq!(total(&round, 0), 13);
    assert_eq!(total(&round, 1), 14);
    assert_eq!(round.cards(1).count(13), 1);
}

#[test]
fn discard_claimed_by_first_seat_in_turn_order() {
    // seats 1 and 2 both wait on kind 12; seat 1 comes first after seat 0
    let mut hands: [Vec<u8>; 4] = [
        vec![12, 13, 14, 15, 16, 17, 27, 28, 29, 30, 31, 32, 33, 12],
        vec![0, 1, 2, 3, 4, 5, 6, 7, 8, 9, 10, 11, 12],
        vec![0, 1, 2, 3, 4, 5, 6, 7, 8, 9, 10, 11, 12],
        vec![18, 19, 20, 21, 22, 23, 24, 25, 26, 27, 28, 29, 30],
    ];
    let order = order_from_hands(&mut hands, &[]);
    let mut round = Round::from_order(order, 0).unwrap();
    assert_eq!(round.discard(0, 12), Discarded::WinByDiscard { winner: 1, loser: 0 });
    assert_eq!(round.drawn(), 53);
}

/// Builds a stack order that deals `hands` (the dealer's 14th tile last in
/// `hands[0]`), then the tiles of `draws`, the other tiles following in kind
/// order.
pub fn order_from_hands(hands: &mut [Vec<u8>; 4], draws: &[u8]) -> [u8; 136] {
    let mut left = [4u8; 34];
    let mut order = Vec::new();
    for p in 0..52 {
        let t = hands[p % 4][p / 4];
        left[t as usize] -= 1;
        order.push(t);
    }
    let extra = hands[0][13];
    left[extra as usize] -= 1;
    order.push(extra);
    for &t in draws {
        left[t as usize] -= 1;
        order.push(t);
    }
    for k in 0..34u8 {
        for _ in 0..left[k as usize] {
            order.push(k);
        }
    }
    order.try_into().unwrap()
}

#[test]
fn round_start_sends_index_and_own_hand() {
    let (game, out) = game_with(sorted_order());
    assert_eq!(out.len(), 8);
    for seat in 0..4 {
        assert_eq!(out[2 * seat], (PLAYERS[seat], ServerMessage::RoundStart(0)));
        assert_eq!(out[2 * seat + 1], (PLAYERS[seat], ServerMessage::CardSync(game.round.cards(seat))));
    }
    assert_eq!(game.round_records.len(), 1);
    assert_eq!(game.round_records[0].stack, sorted_order());
    assert!(game.round_records[0].discard.is_empty());
}

#[test]
fn non_winning_discard_passes_turn() {
    let (mut game, _) = game_with(sorted_order());
    let mut out = Vec::new();
    assert!(!game.handle_message(ClientMessage::Discard(13), PLAYERS[0], &mut out));
    let drawn: Vec<_> = out.iter().filter(|(_, m)| matches!(m, ServerMessage::GetCard(_))).collect();
    assert_eq!(drawn.len(), 1);
    assert_eq!(*drawn[0], (PLAYERS[1], ServerMessage::GetCard(13)));
    assert_eq!(out.len(), 5);
    for seat in 0..4 {
        assert_eq!(out[seat], (PLAYERS[seat], ServerMessage::Discard((PLAYERS[0], 13))));
    }
    assert_eq!(game.round.current_player(), 1);
    assert_eq!(game.round_records[0].discard, vec![13]);
}

#[test]
fn rejected_discards_answer_only_the_sender() {
    let (mut game, _) = game_with(sorted_order());
    let mut out = Vec::new();
    assert!(!game.handle_message(ClientMessage::Discard(0), PLAYERS[2], &mut out));
    assert_eq!(out, vec![(PLAYERS[2], ServerMessage::NotCurrentPlayer)]);
    out.clear();
    assert!(!game.handle_message(ClientMessage::Discard(30), PLAYERS[0], &mut out));
    assert_eq!(out, vec![(PLAYERS[0], ServerMessage::NotHaveCard)]);
    assert_eq!(game.round.current_player(), 0);
    assert!(game.round_records[0].discard.is_empty());
}

#[test]
fn sync_requests_answer_the_sender() {
    let (mut game, _) = game_with(sorted_order());
    let mut out = Vec::new();
    assert!(!game.handle_message(ClientMessage::RequestGameSync, PLAYERS[3], &mut out));
    assert!(!game.handle_message(ClientMessage::RequestCardSync, PLAYERS[3], &mut out));
    assert_eq!(out.len(), 2);
    match out[0] {
        (uid, ServerMessage::GameInfoSync(info)) => {
            assert_eq!(uid, PLAYERS[3]);
            assert_eq!(info.round_id, 0);
            assert_eq!(info.players, PLAYERS);
            assert_eq!(info.players_score, [0; 4]);
        }
        _ => panic!("expected game info"),
    }
    assert_eq!(out[1], (PLAYERS[3], ServerMessage::CardSync(game.round.cards(3))));
}

#[test]
fn exhausted_stack_ends_round_in_one_tie() {
    let (mut game, _) = game_with(sorted_order());
    let mut out = Vec::new();
    // each seat throws away the tile it holds last in kind order; with this
    // deal nobody can ever complete a hand
    let mut ended = false;
    let mut discards = 0;
    while game.round_id == 0 {
        let seat = game.round.current_player();
        let counts = game.round.cards(seat).counts();
        let tile = (0..34).rev().find(|&k| counts[k] > 0).unwrap() as u8;
        ended = game.handle_message(ClientMessage::Discard(tile), PLAYERS[seat], &mut out);
        discards += 1;
    }
    assert!(!ended);
    assert_eq!(discards, 136 - 53 + 1);
    let ties = out.iter().filter(|(_, m)| *m == ServerMessage::Tie).count();
    assert_eq!(ties, 4);
    for seat in 0..4 {
        assert!(out.contains(&(PLAYERS[seat], ServerMessage::Tie)));
    }
    assert!(!out.iter().any(|(_, m)| matches!(m, ServerMessage::WinAll(_) | ServerMessage::WinOne(_))));
    assert_eq!(game.round_id, 1);
    assert_eq!(game.players_score, [0; 4]);
    assert_eq!(game.round_records.len(), 2);
    assert_eq!(game.round_records[0].winner_seat, None);
    assert_eq!(game.round_records[0].discard.len(), discards);
    assert_eq!(game.round.current_player(), 1);
    assert!(out.contains(&(PLAYERS[2], ServerMessage::RoundStart(1))));
}

#[test]
fn discard_win_scores_one_point() {
    let mut hands: [Vec<u8>; 4] = [
        vec![12, 13, 14, 15, 16, 17, 27, 28, 29, 30, 31, 32, 33, 12],
        vec![0, 1, 2, 3, 4, 5, 6, 7, 8, 9, 10, 11, 12],
        vec![18, 19, 20, 21, 22, 23, 24, 25, 26, 27, 28, 29, 30],
        vec![18, 19, 20, 21, 22, 23, 24, 25, 26, 31, 32, 33, 31],
    ];
    let (mut game, _) = game_with(order_from_hands(&mut hands, &[]));
    let mut out = Vec::new();
    assert!(!game.handle_message(ClientMessage::Discard(12), PLAYERS[0], &mut out));
    assert_eq!(game.players_score, [-1, 1, 0, 0]);
    assert_eq!(game.players_score.iter().sum::<i64>(), 0);
    assert!(out.contains(&(PLAYERS[3], ServerMessage::WinOne((PLAYERS[1], PLAYERS[0])))));
    assert_eq!(game.round_records[0].winner_seat, Some(1));
    assert_eq!(game.round_records[0].loser_seat, Some(0));
    assert_eq!(game.round_id, 1);
}

#[test]
fn self_draw_win_scores_three_points() {
    // seat 1 waits on kind 12 and draws it first
    let mut hands: [Vec<u8>; 4] = [
        vec![13, 13, 14, 15, 16, 17, 27, 28, 29, 30, 31, 32, 33, 14],
        vec![0, 1, 2, 3, 4, 5, 6, 7, 8, 9, 10, 11, 12],
        vec![18, 19, 20, 21, 22, 23, 24, 25, 26, 27, 28, 29, 30],
        vec![18, 19, 20, 21, 22, 23, 24, 25, 26, 31, 32, 33, 31],
    ];
    let (mut game, _) = game_with(order_from_hands(&mut hands, &[12]));
    assert_eq!(game.round.cards(1).count(12), 1);
    let mut out = Vec::new();
    assert!(!game.handle_message(ClientMessage::Discard(33), PLAYERS[0], &mut out));
    assert!(out.contains(&(PLAYERS[1], ServerMessage::GetCard(12))));
    for seat in 0..4 {
        assert!(out.contains(&(PLAYERS[seat], ServerMessage::WinAll(PLAYERS[1]))));
    }
    assert_eq!(game.players_score, [-1, 3, -1, -1]);
    assert_eq!(game.players_score.iter().sum::<i64>(), 0);
    assert_eq!(game.round_records[0].winner_seat, Some(1));
    assert_eq!(game.round_records[0].loser_seat, None);
    assert_eq!(game.round_records[0].discard, vec![33]);
    assert_eq!(game.round_id, 1);
}

#[test]
fn session_ends_after_four_rounds() {
    let mut game = Game::new(PLAYERS);
    let mut out = Vec::new();
    game.game_start(&mut out);
    assert_eq!(out[0], (PLAYERS[0], ServerMessage::GameInfoSync(game.game_info())));
    let mut rounds_seen = 0;
    let mut ended = false;
    while !ended {
        let round = game.round_id;
        let seat = game.round.current_player();
        if rounds_seen == round {
            assert_eq!(seat, round);
            rounds_seen += 1;
        }
        let counts = game.round.cards(seat).counts();
        let tile = (0..34).find(|&k| counts[k] > 0).unwrap() as u8;
        ended = game.handle_message(ClientMessage::Discard(tile), PLAYERS[seat], &mut out);
    }
    assert_eq!(game.round_id, 4);
    assert_eq!(rounds_seen, 4);
    assert_eq!(game.round_records.len(), 4);
    assert_eq!(game.players_score.iter().sum::<i64>(), 0);
}

#[test]
fn ranking_orders_by_score_then_seat() {
    assert_eq!(ranking([1, 3, 1, -5]), [1, 0, 2, 3]);
    assert_eq!(ranking([0, 0, 0, 0]), [0, 1, 2, 3]);
    assert_eq!(ranking([-3, -1, 3, 1]), [2, 3, 1, 0]);
}
