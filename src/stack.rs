//! The tile stack: every physical tile once, shuffled, with a draw cursor.
use rand::seq::SliceRandom;
use vstd::prelude::*;
use vstd::seq_lib::*;

verus! {

/// Whether `s` holds each of the 34 kinds exactly four times and nothing else.
pub open spec fn is_full_tile_set(s: Seq<u8>) -> bool {
    &&& s.len() == 136
    &&& forall|k: u8| k < 34 ==> #[trigger] s.to_multiset().count(k) == 4
    &&& forall|i: int| 0 <= i < s.len() ==> #[trigger] s[i] < 34
}

/// How many tiles of kind `k` stand in the first `n` places of `s`.
pub open spec fn count_in_prefix(s: Seq<u8>, n: int, k: u8) -> nat {
    s.subrange(0, n).to_multiset().count(k)
}

/// Relies on rand's `SliceRandom::shuffle` with the thread-local generator:
/// it reorders the slice by swaps, so the same tiles remain.
#[verifier::external_body]
fn shuffle_tiles(tiles: &mut [u8; 136])
    ensures
        final(tiles)@.to_multiset() == old(tiles)@.to_multiset(),
{
    tiles.shuffle(&mut rand::rng());
}

pub struct Stack {
    stack: [u8; 136],
    next: usize,
}

impl Stack {
    /// The tiles in drawing order.
    pub closed spec fn tiles(&self) -> Seq<u8> {
        self.stack@
    }

    /// How many tiles have been drawn.
    pub closed spec fn cursor(&self) -> int {
        self.next as int
    }

    pub open spec fn wf(&self) -> bool {
        is_full_tile_set(self.tiles()) && 0 <= self.cursor() <= 136
    }

    /// A uniformly shuffled stack of all 136 tiles, nothing drawn yet.
    pub fn random() -> (r: Stack)
        ensures
            r.wf(),
            r.cursor() == 0,
    {
        let mut stack = [0u8; 136];
        let mut i: usize = 0;
        proof {
            broadcast use group_to_multiset_ensures;

            assert forall|k: u8| #[trigger] count_in_prefix(stack@, 0, k) == 0nat by {
                assert(stack@.subrange(0, 0).to_multiset().len() == 0);
            }
        }
        while i < 34
            invariant
                i <= 34,
                forall|k: u8|
                    #[trigger] count_in_prefix(stack@, 4 * i, k) == if (k as int) < i {
                        4nat
                    } else {
                        0nat
                    },
                forall|x: int| 0 <= x < 4 * i ==> #[trigger] stack@[x] < 34,
            decreases 34 - i,
        {
            let mut j: usize = 0;
            while j < 4
                invariant
                    i < 34,
                    j <= 4,
                    forall|k: u8|
                        #[trigger] count_in_prefix(stack@, 4 * i + j, k) == if (k as int) < i {
                            4nat
                        } else if k as int == i {
                            j as nat
                        } else {
                            0nat
                        },
                    forall|x: int| 0 <= x < 4 * i + j ==> #[trigger] stack@[x] < 34,
                decreases 4 - j,
            {
                let ghost before = stack@;
                let n = 4 * i + j;
                stack[n] = i as u8;
                proof {
                    assert(stack@.subrange(0, n + 1) =~= before.subrange(0, n as int).push(
                        i as u8,
                    ));
                    broadcast use group_to_multiset_ensures;

                    assert forall|k: u8|
                        #[trigger] count_in_prefix(stack@, n + 1, k) == if (k as int) < i {
                            4nat
                        } else if k as int == i {
                            (j + 1) as nat
                        } else {
                            0nat
                        } by {
                        assert(count_in_prefix(before, n as int, k) == if (k as int) < i {
                            4nat
                        } else if k as int == i {
                            j as nat
                        } else {
                            0nat
                        });
                    }
                }
                j = j + 1;
            }
            assert forall|k: u8|
                #[trigger] count_in_prefix(stack@, 4 * (i + 1), k) == if (k as int) < i + 1 {
                    4nat
                } else {
                    0nat
                } by {
                assert(count_in_prefix(stack@, 4 * i + 4, k) == if (k as int) < i {
                    4nat
                } else if k as int == i {
                    4nat
                } else {
                    0nat
                });
            }
            i = i + 1;
        }
        proof {
            assert(stack@.subrange(0, 136) =~= stack@);
            assert forall|k: u8| k < 34 implies #[trigger] stack@.to_multiset().count(k) == 4 by {
                assert(count_in_prefix(stack@, 4 * 34int, k) == 4);
            }
        }
        let ghost ordered = stack@;
        shuffle_tiles(&mut stack);
        proof {
            broadcast use group_to_multiset_ensures;

            assert forall|x: int| 0 <= x < stack@.len() implies #[trigger] stack@[x] < 34 by {
                assert(stack@.contains(stack@[x]));
                assert(ordered.to_multiset().count(stack@[x]) > 0);
                assert(ordered.contains(stack@[x]));
            }
            assert(stack@.len() == 136);
        }
        Stack { stack, next: 0 }
    }

    /// A stack that deals the tiles in the given order, if the order holds
    /// each kind exactly four times; nothing drawn yet.
    pub fn from_order(order: [u8; 136]) -> (r: Option<Stack>)
        ensures
            r is Some <==> is_full_tile_set(order@),
            r matches Some(st) ==> st.wf() && st.tiles() == order@ && st.cursor() == 0,
    {
        let mut counts = [0u8; 34];
        let mut i: usize = 0;
        proof {
            assert forall|k: u8| #[trigger] count_in_prefix(order@, 0, k) == 0 by {
                lemma_nothing_drawn(order@, k);
            }
        }
        while i < 136
            invariant
                i <= 136,
                forall|x: int| 0 <= x < i ==> #[trigger] order@[x] < 34,
                forall|k: u8| k < 34 ==> #[trigger] counts@[k as int] == count_in_prefix(order@, i as int, k),
                forall|k: u8| k < 34 ==> #[trigger] counts@[k as int] <= i,
                forall|k: u8| k >= 34 ==> #[trigger] count_in_prefix(order@, i as int, k) == 0,
            decreases 136 - i,
        {
            let t = order[i];
            proof {
                assert forall|k: u8| true implies #[trigger] count_in_prefix(order@, i + 1, k)
                    == count_in_prefix(order@, i as int, k) + if order@[i as int] == k {
                    1nat
                } else {
                    0nat
                } by {
                    lemma_draw_counts(order@, i as int, k);
                }
            }
            if t >= 34 {
                proof {
                    assert(order@[i as int] >= 34);
                }
                return None;
            }
            counts[t as usize] = counts[t as usize] + 1;
            i = i + 1;
        }
        assert(order@.subrange(0, 136) =~= order@);
        let mut k: usize = 0;
        while k < 34
            invariant
                k <= 34,
                forall|x: int| 0 <= x < 136 ==> #[trigger] order@[x] < 34,
                forall|j: u8| j < 34 ==> #[trigger] counts@[j as int] == order@.to_multiset().count(j),
                forall|j: u8| j < k ==> #[trigger] order@.to_multiset().count(j) == 4,
            decreases 34 - k,
        {
            if counts[k] != 4 {
                return None;
            }
            k = k + 1;
        }
        Some(Stack { stack: order, next: 0 })
    }

    /// How many tiles have been drawn.
    pub fn drawn(&self) -> (r: usize)
        ensures
            r == self.cursor(),
    {
        self.next
    }

    /// The tiles in drawing order.
    pub fn order(&self) -> (r: [u8; 136])
        ensures
            r@ == self.tiles(),
    {
        self.stack
    }

    /// Draws the tile under the cursor and moves the cursor one place on.
    pub fn next(&mut self) -> (r: u8)
        requires
            old(self).wf(),
            old(self).cursor() < 136,
        ensures
            final(self).wf(),
            final(self).tiles() == old(self).tiles(),
            final(self).cursor() == old(self).cursor() + 1,
            r == old(self).tiles()[old(self).cursor()],
            r < 34,
    {
        self.next = self.next + 1;
        self.stack[self.next - 1]
    }
}

/// Before the first draw no tile has been drawn.
pub proof fn lemma_nothing_drawn(s: Seq<u8>, k: u8)
    ensures
        count_in_prefix(s, 0, k) == 0,
{
    broadcast use group_to_multiset_ensures;

    assert(s.subrange(0, 0).to_multiset().len() == 0);
}

/// Drawing the tile at place `n` adds one tile of its kind to what has been
/// drawn, and what has been drawn never holds more of a kind than the stack.
pub proof fn lemma_draw_counts(s: Seq<u8>, n: int, k: u8)
    requires
        0 <= n < s.len(),
    ensures
        count_in_prefix(s, n + 1, k) == count_in_prefix(s, n, k) + if s[n] == k {
            1nat
        } else {
            0nat
        },
        count_in_prefix(s, n + 1, k) <= s.to_multiset().count(k),
{
    broadcast use group_to_multiset_ensures;

    assert(s.subrange(0, n + 1) =~= s.subrange(0, n).push(s[n]));
    assert(s =~= s.subrange(0, n + 1) + s.subrange(n + 1, s.len() as int));
    lemma_multiset_commutative(s.subrange(0, n + 1), s.subrange(n + 1, s.len() as int));
}

} // verus!
