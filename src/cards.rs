//! Hands of tiles, kept as a count per tile kind.
use vstd::prelude::*;

verus! {

/// The names of the tile kinds, kind by kind: three suits of nine ranks,
/// then the four winds and the three dragons.
pub open spec fn card_chars() -> Seq<char> {
    seq!['壹', '贰', '叁', '肆', '伍', '陆', '柒', '捌', '玖', '一', '二', '三', '四', '五', '六', '七', '八', '九', '1', '2', '3', '4', '5', '6', '7', '8', '9', '东', '南', '西', '北', '白', '发', '中']
}

/// A hand: for each of the 34 tile kinds, how many tiles of it are held.
#[derive(Clone, Copy, Debug, PartialEq, Eq)]
pub struct Cards {
    m: [u8; 34],
}

impl Default for Cards {
    /// An empty hand.
    fn default() -> (r: Cards)
        ensures
            forall|k: int| 0 <= k < 34 ==> #[trigger] r@[k] == 0,
    {
        Cards { m: [0u8; 34] }
    }
}

impl Cards {
    /// The counts, kind by kind.
    pub closed spec fn view(&self) -> Seq<u8> {
        self.m@
    }

    pub fn new(cards: [u8; 34]) -> (r: Cards)
        ensures
            r@ == cards@,
    {
        Cards { m: cards }
    }

    /// The number of tiles of kind `card` held.
    pub fn count(&self, card: u8) -> (r: u8)
        requires
            card < 34,
        ensures
            r == self@[card as int],
    {
        self.m[card as usize]
    }

    /// The counts as an array.
    pub fn counts(&self) -> (r: [u8; 34])
        ensures
            r@ == self@,
    {
        self.m
    }

    /// A copy of this hand with one more tile of kind `card`; this hand is
    /// left as it is.
    pub fn copy_insert(&self, card: u8) -> (r: Cards)
        requires
            card < 34,
            self@[card as int] < 255,
        ensures
            r@ == self@.update(card as int, (self@[card as int] + 1) as u8),
    {
        let mut res = *self;
        res.insert(card);
        res
    }

    /// The name of tile kind `card`.
    pub fn card_name(card: u8) -> (r: char)
        requires
            card < 34,
        ensures
            r == card_chars()[card as int],
    {
        let names: [char; 34] = ['壹', '贰', '叁', '肆', '伍', '陆', '柒', '捌', '玖', '一', '二', '三', '四', '五', '六', '七', '八', '九', '1', '2', '3', '4', '5', '6', '7', '8', '9', '东', '南', '西', '北', '白', '发', '中'];
        assert(names@ =~= card_chars());
        names[card as usize]
    }

    /// The tile kind named `name`, if any.
    pub fn card_id(name: char) -> (r: Option<u8>)
        ensures
            r matches Some(k) ==> k < 34 && card_chars()[k as int] == name,
            r is None <==> !card_chars().contains(name),
    {
        let names: [char; 34] = ['壹', '贰', '叁', '肆', '伍', '陆', '柒', '捌', '玖', '一', '二', '三', '四', '五', '六', '七', '八', '九', '1', '2', '3', '4', '5', '6', '7', '8', '9', '东', '南', '西', '北', '白', '发', '中'];
        assert(names@ =~= card_chars());
        let mut i: usize = 0;
        while i < 34
            invariant
                i <= 34,
                names@ == card_chars(),
                forall|j: int| 0 <= j < i ==> card_chars()[j] != name,
            decreases 34 - i,
        {
            if names[i] == name {
                return Some(i as u8);
            }
            i = i + 1;
        }
        None
    }

    /// Adds one tile of kind `card`.
    pub fn insert(&mut self, card: u8)
        requires
            card < 34,
            old(self)@[card as int] < 255,
        ensures
            final(self)@ == old(self)@.update(card as int, (old(self)@[card as int] + 1) as u8),
    {
        self.m[card as usize] = self.m[card as usize] + 1;
    }

    /// Removes one tile of kind `card`.
    pub fn delete(&mut self, card: u8)
        requires
            card < 34,
            old(self)@[card as int] > 0,
        ensures
            final(self)@ == old(self)@.update(card as int, (old(self)@[card as int] - 1) as u8),
    {
        self.m[card as usize] = self.m[card as usize] - 1;
    }
}

} // verus!
