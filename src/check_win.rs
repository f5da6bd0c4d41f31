//! Winning-hand detection.
//!
//! A hand wins in the standard shape when its tiles split exactly into four
//! melds and one pair, and in the seven-pairs shape when it holds exactly
//! seven kinds twice each and nothing else.
use vstd::prelude::*;

use crate::cards::Cards;

verus! {

/// Whether a run may start at kind `k`: runs stay inside one of the three
/// numbered suits of nine ranks and never touch the honors.
pub open spec fn is_run_start(k: int) -> bool {
    0 <= k < 27 && k % 9 <= 6
}

/// A meld is written `(start, run)`: three tiles of kind `start` when `run`
/// is false, else one tile each of `start`, `start + 1` and `start + 2`.
pub open spec fn valid_meld(m: (int, bool)) -> bool {
    if m.1 {
        is_run_start(m.0)
    } else {
        0 <= m.0 < 34
    }
}

/// Whether the hand holds the tiles of meld `m`.
pub open spec fn meld_fits(h: Seq<u8>, m: (int, bool)) -> bool {
    if m.1 {
        h[m.0] >= 1 && h[m.0 + 1] >= 1 && h[m.0 + 2] >= 1
    } else {
        h[m.0] >= 3
    }
}

/// The hand with the tiles of meld `m` taken out.
pub open spec fn remove_meld(h: Seq<u8>, m: (int, bool)) -> Seq<u8> {
    if m.1 {
        h.update(m.0, (h[m.0] - 1) as u8).update(m.0 + 1, (h[m.0 + 1] - 1) as u8).update(
            m.0 + 2,
            (h[m.0 + 2] - 1) as u8,
        )
    } else {
        h.update(m.0, (h[m.0] - 3) as u8)
    }
}

pub open spec fn all_zero(h: Seq<u8>) -> bool {
    forall|k: int| 0 <= k < h.len() ==> h[k] == 0
}

/// Whether the tiles of `h` split exactly into `n` melds, none left over.
pub open spec fn splits_into_melds(h: Seq<u8>, n: nat) -> bool
    decreases n,
{
    if n == 0 {
        all_zero(h)
    } else {
        exists|m: (int, bool)|
            valid_meld(m) && meld_fits(h, m) && splits_into_melds(
                #[trigger] remove_meld(h, m),
                (n - 1) as nat,
            )
    }
}

/// The hand with two tiles of kind `p` taken out.
pub open spec fn remove_pair(h: Seq<u8>, p: int) -> Seq<u8> {
    h.update(p, (h[p] - 2) as u8)
}

/// Four melds and one pair.
pub open spec fn standard_shape(h: Seq<u8>) -> bool {
    exists|p: int| 0 <= p < 34 && h[p] >= 2 && splits_into_melds(#[trigger] remove_pair(h, p), 4)
}

/// The number of kinds held exactly twice.
pub open spec fn pair_count(h: Seq<u8>) -> int
    decreases h.len(),
{
    if h.len() == 0 {
        0
    } else {
        pair_count(h.drop_last()) + if h.last() == 2 {
            1int
        } else {
            0int
        }
    }
}

/// Exactly seven kinds held twice each, every other kind absent.
pub open spec fn seven_pairs(h: Seq<u8>) -> bool {
    (forall|k: int| 0 <= k < h.len() ==> h[k] == 0 || h[k] == 2) && pair_count(h) == 7
}

/// Whether a hand of 34 counts is a winning hand.
pub open spec fn is_winning(h: Seq<u8>) -> bool {
    h.len() == 34 && (standard_shape(h) || seven_pairs(h))
}

/// The total number of tiles in a hand.
pub open spec fn tile_total(h: Seq<u8>) -> int
    decreases h.len(),
{
    if h.len() == 0 {
        0
    } else {
        tile_total(h.drop_last()) + h.last()
    }
}


/// Every meld of a split of `h` starts at or above the lowest kind held, so
/// whenever `h` splits into `n > 0` melds, some split uses a meld that starts
/// exactly at that kind.
proof fn lemma_lowest_meld(h: Seq<u8>, n: nat, k: int)
    requires
        h.len() == 34,
        n > 0,
        splits_into_melds(h, n),
        0 <= k < 34,
        h[k] > 0,
        forall|j: int| 0 <= j < k ==> h[j] == 0,
    ensures
        exists|m: (int, bool)|
            m.0 == k && valid_meld(m) && meld_fits(h, m) && splits_into_melds(
                #[trigger] remove_meld(h, m),
                (n - 1) as nat,
            ),
    decreases n,
{
    let m0 = choose|m: (int, bool)|
        valid_meld(m) && meld_fits(h, m) && splits_into_melds(
            #[trigger] remove_meld(h, m),
            (n - 1) as nat,
        );
    if m0.0 != k {
        assert(h[m0.0] >= 1);
        assert(m0.0 > k);
        let h1 = remove_meld(h, m0);
        assert(h1[k] == h[k]);
        assert forall|j: int| 0 <= j < k implies h1[j] == 0 by {
            assert(h1[j] == h[j]);
        }
        if n == 1 {
            assert(h1[k] == 0);
        } else {
            lemma_lowest_meld(h1, (n - 1) as nat, k);
            let m1 = choose|m: (int, bool)|
                m.0 == k && valid_meld(m) && meld_fits(h1, m) && splits_into_melds(
                    #[trigger] remove_meld(h1, m),
                    (n - 2) as nat,
                );
            let h2 = remove_meld(h, m1);
            assert(meld_fits(h, m1));
            assert(meld_fits(h2, m0));
            assert(remove_meld(h2, m0) =~= remove_meld(h1, m1));
            assert(valid_meld(m0) && meld_fits(h2, m0) && splits_into_melds(
                remove_meld(h2, m0),
                (n - 2) as nat,
            ));
            assert(splits_into_melds(h2, (n - 1) as nat));
        }
    }
}


proof fn lemma_total_update(h: Seq<u8>, i: int, v: u8)
    requires
        0 <= i < h.len(),
    ensures
        tile_total(h.update(i, v)) == tile_total(h) - h[i] + v,
    decreases h.len(),
{
    let u = h.update(i, v);
    if i == h.len() - 1 {
        assert(u.drop_last() =~= h.drop_last());
    } else {
        assert(u.drop_last() =~= h.drop_last().update(i, v));
        lemma_total_update(h.drop_last(), i, v);
    }
}

proof fn lemma_zero_total(h: Seq<u8>)
    requires
        all_zero(h),
    ensures
        tile_total(h) == 0,
    decreases h.len(),
{
    if h.len() > 0 {
        lemma_zero_total(h.drop_last());
    }
}

proof fn lemma_split_total(h: Seq<u8>, n: nat)
    requires
        h.len() == 34,
        splits_into_melds(h, n),
    ensures
        tile_total(h) == 3 * n,
    decreases n,
{
    if n == 0 {
        lemma_zero_total(h);
    } else {
        let m = choose|m: (int, bool)|
            valid_meld(m) && meld_fits(h, m) && splits_into_melds(
                #[trigger] remove_meld(h, m),
                (n - 1) as nat,
            );
        lemma_split_total(remove_meld(h, m), (n - 1) as nat);
        if m.1 {
            let h1 = h.update(m.0, (h[m.0] - 1) as u8);
            let h2 = h1.update(m.0 + 1, (h[m.0 + 1] - 1) as u8);
            lemma_total_update(h, m.0, (h[m.0] - 1) as u8);
            lemma_total_update(h1, m.0 + 1, (h[m.0 + 1] - 1) as u8);
            lemma_total_update(h2, m.0 + 2, (h[m.0 + 2] - 1) as u8);
        } else {
            lemma_total_update(h, m.0, (h[m.0] - 3) as u8);
        }
    }
}

proof fn lemma_pairs_total(h: Seq<u8>)
    requires
        forall|k: int| 0 <= k < h.len() ==> h[k] == 0 || h[k] == 2,
    ensures
        tile_total(h) == 2 * pair_count(h),
    decreases h.len(),
{
    if h.len() > 0 {
        lemma_pairs_total(h.drop_last());
    }
}

/// A winning hand holds exactly fourteen tiles, whichever its shape.
pub proof fn lemma_winning_hand_has_fourteen_tiles(h: Seq<u8>)
    requires
        is_winning(h),
    ensures
        tile_total(h) == 14,
{
    if seven_pairs(h) {
        lemma_pairs_total(h);
    } else {
        let p = choose|p: int|
            0 <= p < 34 && h[p] >= 2 && splits_into_melds(#[trigger] remove_pair(h, p), 4);
        lemma_split_total(remove_pair(h, p), 4);
        lemma_total_update(h, p, (h[p] - 2) as u8);
    }
}

/// A hand one tile short of fourteen is never a winning hand.
pub proof fn lemma_one_tile_short_never_wins(h: Seq<u8>)
    requires
        h.len() == 34,
        tile_total(h) == 13,
    ensures
        !is_winning(h),
{
    if is_winning(h) {
        lemma_winning_hand_has_fourteen_tiles(h);
    }
}

/// The lowest kind held, or 34 for an empty hand.
fn lowest_held(h: &[u8; 34]) -> (r: usize)
    ensures
        r <= 34,
        r < 34 ==> h@[r as int] > 0,
        forall|j: int| 0 <= j < r ==> h@[j] == 0,
{
    let mut i: usize = 0;
    while i < 34
        invariant
            i <= 34,
            forall|j: int| 0 <= j < i ==> h@[j] == 0,
        decreases 34 - i,
    {
        if h[i] > 0 {
            return i;
        }
        i = i + 1;
    }
    i
}

/// Decides whether `h` splits into exactly `n` melds, trying for the lowest
/// kind held both a triplet and a run that start there.
fn split_melds(h: [u8; 34], n: u8) -> (r: bool)
    ensures
        r == splits_into_melds(h@, n as nat),
    decreases n,
{
    let k = lowest_held(&h);
    if n == 0 {
        return k == 34;
    }
    if k == 34 {
        proof {
            if splits_into_melds(h@, n as nat) {
                let m = choose|m: (int, bool)|
                    valid_meld(m) && meld_fits(h@, m) && splits_into_melds(
                        #[trigger] remove_meld(h@, m),
                        (n - 1) as nat,
                    );
                assert(h@[m.0] == 0);
            }
        }
        return false;
    }
    let ghost hv = h@;
    if h[k] >= 3 {
        let mut t = h;
        t[k] = t[k] - 3;
        let ghost m = (k as int, false);
        assert(t@ =~= remove_meld(hv, m));
        if split_melds(t, n - 1) {
            return true;
        }
    }
    if k < 27 && k % 9 <= 6 && h[k + 1] >= 1 && h[k + 2] >= 1 {
        let mut t = h;
        t[k] = t[k] - 1;
        t[k + 1] = t[k + 1] - 1;
        t[k + 2] = t[k + 2] - 1;
        let ghost m = (k as int, true);
        assert(t@ =~= remove_meld(hv, m));
        if split_melds(t, n - 1) {
            return true;
        }
    }
    proof {
        if splits_into_melds(hv, n as nat) {
            lemma_lowest_meld(hv, n as nat, k as int);
            let m = choose|m: (int, bool)|
                m.0 == k && valid_meld(m) && meld_fits(hv, m) && splits_into_melds(
                    #[trigger] remove_meld(hv, m),
                    (n - 1) as nat,
                );
            if m.1 {
                assert(m == (k as int, true));
            } else {
                assert(m == (k as int, false));
            }
        }
    }
    false
}

/// Decides the standard shape by trying every kind as the pair.
fn has_standard_shape(h: &[u8; 34]) -> (r: bool)
    ensures
        r == standard_shape(h@),
{
    let mut p: usize = 0;
    while p < 34
        invariant
            p <= 34,
            forall|q: int|
                0 <= q < p ==> !(h@[q] >= 2 && splits_into_melds(#[trigger] remove_pair(h@, q), 4)),
        decreases 34 - p,
    {
        if h[p] >= 2 {
            let mut t = *h;
            t[p] = t[p] - 2;
            assert(t@ =~= remove_pair(h@, p as int));
            if split_melds(t, 4) {
                return true;
            }
        }
        p = p + 1;
    }
    false
}

/// Decides the seven-pairs shape.
fn has_seven_pairs(h: &[u8; 34]) -> (r: bool)
    ensures
        r == seven_pairs(h@),
{
    let mut i: usize = 0;
    let mut pairs: usize = 0;
    while i < 34
        invariant
            i <= 34,
            pairs == pair_count(h@.subrange(0, i as int)),
            pairs <= i,
            forall|j: int| 0 <= j < i ==> h@[j] == 0 || h@[j] == 2,
        decreases 34 - i,
    {
        assert(h@.subrange(0, i + 1).drop_last() =~= h@.subrange(0, i as int));
        if h[i] == 2 {
            pairs = pairs + 1;
        } else if h[i] != 0 {
            return false;
        }
        i = i + 1;
    }
    assert(h@.subrange(0, 34) =~= h@);
    pairs == 7
}

/// Whether `cards` is a winning hand: four melds and a pair, or seven pairs.
pub fn check(cards: &Cards) -> (r: bool)
    ensures
        r == is_winning(cards@),
{
    let h = cards.counts();
    has_seven_pairs(&h) || has_standard_shape(&h)
}

} // verus!
