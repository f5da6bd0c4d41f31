use maj_spirit::cards::Cards;
use maj_spirit::check_win::check;

fn hand(tiles: &[u8]) -> Cards {
    let mut counts = [0u8; 34];
    for &t in tiles {
        counts[t as usize] += 1;
    }
    Cards::new(counts)
}

#[test]
fn four_melds_and_a_pair_win() {
    // runs 1-2-3, 4-5-6 of the first suit, a triplet of east, a run in the
    // third suit, and a pair of red dragons
    let h = hand(&[0, 1, 2, 3, 4, 5, 27, 27, 27, 18, 19, 20, 33, 33]);
    assert!(check(&h));
}

#[test]
fn triplets_or_runs_both_explored() {
    // 1112345678999 + 9 of one suit: the nine-gates shape needs the search to
    // try a triplet and a run at the same kind
    let h = hand(&[0, 0, 0, 1, 2, 3, 4, 5, 6, 7, 8, 8, 8, 8]);
    assert!(check(&h));
    // 111 222 333 read as three runs or three triplets, pair of 5
    let h = hand(&[9, 9, 9, 10, 10, 10, 11, 11, 11, 13, 13, 30, 30, 30]);
    assert!(check(&h));
}

#[test]
fn seven_pairs_win() {
    let h = hand(&[0, 0, 4, 4, 9, 9, 15, 15, 22, 22, 27, 27, 33, 33]);
    assert!(check(&h));
}

#[test]
fn four_of_a_kind_is_not_two_pairs() {
    let h = hand(&[0, 0, 0, 0, 9, 9, 15, 15, 22, 22, 27, 27, 33, 33]);
    assert!(!check(&h));
}

#[test]
fn one_tile_short_loses() {
    let h = hand(&[0, 1, 2, 3, 4, 5, 27, 27, 27, 18, 19, 20, 33]);
    assert!(!check(&h));
    let h = hand(&[0, 0, 4, 4, 9, 9, 15, 15, 22, 22, 27, 27, 33]);
    assert!(!check(&h));
}

#[test]
fn runs_do_not_cross_suits_or_honors() {
    // 8-9 of the first suit with 1 of the second is no run
    let h = hand(&[7, 8, 9, 0, 1, 2, 3, 4, 5, 27, 27, 27, 33, 33]);
    assert!(!check(&h));
    // east-south-west is no run
    let h = hand(&[27, 28, 29, 0, 1, 2, 3, 4, 5, 10, 11, 12, 33, 33]);
    assert!(!check(&h));
}

#[test]
fn empty_hand_does_not_win() {
    assert!(!check(&Cards::new([0u8; 34])));
}

#[test]
fn hypothetical_tile_leaves_hand_unchanged() {
    let h = hand(&[0, 1, 2, 3, 4, 5, 27, 27, 27, 18, 19, 20, 33]);
    let with = h.copy_insert(33);
    assert!(check(&with));
    assert_eq!(h.count(33), 1);
    assert_eq!(with.count(33), 2);
}

#[test]
fn insert_and_delete_change_one_count() {
    let mut h = hand(&[5, 5]);
    h.insert(5);
    assert_eq!(h.count(5), 3);
    h.delete(5);
    h.delete(5);
    assert_eq!(h.count(5), 1);
    assert_eq!(h.counts()[4], 0);
}

#[test]
fn tile_names_round_trip() {
    assert_eq!(Cards::card_name(0), '壹');
    assert_eq!(Cards::card_name(9), '一');
    assert_eq!(Cards::card_name(18), '1');
    assert_eq!(Cards::card_name(27), '东');
    assert_eq!(Cards::card_name(33), '中');
    for k in 0..34u8 {
        assert_eq!(Cards::card_id(Cards::card_name(k)), Some(k));
    }
    assert_eq!(Cards::card_id('x'), None);
}

#[test]
fn default_hand_is_empty() {
    let h = Cards::default();
    assert_eq!(h.counts(), [0u8; 34]);
}
