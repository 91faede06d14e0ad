//! Iteration over the set bits of an occupancy word, least significant
//! first, consuming an internal copy of the word.

use vstd::prelude::*;
use crate::game_state::BitBoard;
use crate::bits::utils::{bit64, lsb_index, lemma_lsb_index, lsb_mask, bitscan};

verus! {

/// Get a bit-index iterator for a bitboard.
pub fn biterator(bb: BitBoard) -> (r: BitErator)
    ensures
        r.bb == bb,
{
    BitErator { bb }
}

/// Get a single-bit-word iterator for a bitboard.
pub fn bitboarderator(bb: BitBoard) -> (r: BitBoardErator)
    ensures
        r.bb == bb,
{
    BitBoardErator { bb }
}

/// Clearing a word's (set) least significant bit by xor.
proof fn lemma_clear_lsb(bb: u64, k: u64)
    by (bit_vector)
    requires
        k < 64,
        (bb >> k) & 1 == 1,
    ensures
        bb ^ (1u64 << k) == bb & !(1u64 << k),
{
}

/// Yields the indices of the set bits of a word, from least to most
/// significant.
pub struct BitErator {
    pub bb: BitBoard,
}

impl BitErator {
    /// The next set bit's index: the least significant set bit of what
    /// remains, which is consumed; none once the word is exhausted.
    pub fn next(&mut self) -> (r: Option<u32>)
        ensures
            old(self).bb == 0 ==> r is None && final(self).bb == 0,
            old(self).bb != 0 ==> {
                let k = lsb_index(old(self).bb);
                &&& r == Some(k as u32)
                &&& k < 64
                &&& bit64(old(self).bb, k)
                &&& (forall|j: u64| j < k ==> !bit64(old(self).bb, j))
                &&& final(self).bb == old(self).bb & !(1u64 << k)
            },
    {
        if self.bb == 0 {
            return None;
        }
        proof {
            lemma_lsb_index(self.bb);
            lemma_clear_lsb(self.bb, lsb_index(self.bb));
        }
        let lsb_idx = bitscan(self.bb);
        self.bb = self.bb ^ lsb_mask(self.bb);
        Some(lsb_idx)
    }
}

/// Yields words with only one bit set: each set bit of the original word in
/// turn, from least to most significant.
pub struct BitBoardErator {
    pub bb: BitBoard,
}

impl BitBoardErator {
    /// The next set bit, isolated in a word of its own, consuming it; none
    /// once the word is exhausted.
    pub fn next(&mut self) -> (r: Option<BitBoard>)
        ensures
            old(self).bb == 0 ==> r is None && final(self).bb == 0,
            old(self).bb != 0 ==> {
                let k = lsb_index(old(self).bb);
                &&& r == Some(1u64 << k)
                &&& k < 64
                &&& bit64(old(self).bb, k)
                &&& (forall|j: u64| j < k ==> !bit64(old(self).bb, j))
                &&& final(self).bb == old(self).bb & !(1u64 << k)
            },
    {
        if self.bb == 0 {
            return None;
        }
        proof {
            lemma_lsb_index(self.bb);
            lemma_clear_lsb(self.bb, lsb_index(self.bb));
        }
        let mask = lsb_mask(self.bb);
        self.bb = self.bb ^ mask;
        Some(mask)
    }
}

} // verus!
