//! Bitboard-based board game engine core: position representation, compact
//! move encoding, the make-move transition engine, a bounded history stack,
//! and a lossless textual position codec.

pub mod bits;
pub mod fen;
pub mod game_move;
pub mod game_state;
pub mod move_gen;
pub mod move_list;

use vstd::prelude::*;
use crate::bits::utils::{bit64, lemma_bit64_mask_test};

verus! {

/// Get the index of a square from its rank and file indices.
pub fn square_idx(rank_idx: u64, file_idx: u64) -> (r: u64)
    requires
        rank_idx < 8,
        file_idx < 8,
    ensures
        r == rank_idx * 8 + file_idx,
{
    proof {
        assert((rank_idx << 3) == rank_idx * 8) by (bit_vector)
            requires
                rank_idx < 8,
        ;
    }
    (rank_idx << 3) + file_idx
}

/// Get the file index of a square.
pub fn file_idx(square_idx: u64) -> (r: u64)
    ensures
        r == square_idx % 8,
{
    proof {
        assert(square_idx & 7 == square_idx % 8) by (bit_vector);
    }
    square_idx & 7
}

/// Get the rank index of a square.
pub fn rank_idx(square_idx: u64) -> (r: u64)
    ensures
        r == square_idx / 8,
{
    proof {
        assert(square_idx >> 3 == square_idx / 8) by (bit_vector);
    }
    square_idx >> 3
}

/// The first occupancy word at index `k` or later whose bit `sbit` is set.
pub open spec fn first_occupying(bbs: Seq<u64>, sbit: u64, k: int) -> Option<int>
    decreases 12 - k,
{
    if k < 0 || k >= 12 {
        None
    } else if bit64(bbs[k], sbit) {
        Some(k)
    } else {
        first_occupying(bbs, sbit, k + 1)
    }
}

/// The occupancy words after relocating the piece found on the from-square
/// to the to-square, removing whatever the to-square held: the occupant of
/// the to-square (if any) loses its to-bit, and the mover's word loses its
/// from-bit and gains the to-bit.
pub open spec fn moved_bbs(bbs: Seq<u64>, frombit: u64, tobit: u64) -> Seq<u64> {
    let mi = first_occupying(bbs, frombit, 0).unwrap();
    let cleared = match first_occupying(bbs, tobit, 0) {
        Some(ci) => bbs.update(ci, bbs[ci] & !(1u64 << tobit)),
        None => bbs,
    };
    cleared.update(mi, (cleared[mi] & !(1u64 << frombit)) | (1u64 << tobit))
}

/// An early sketch of the board state: the twelve occupancy words with the
/// game metadata, and a square-mask table that maps square `i` to bit
/// `63 - i`.
pub struct GameState {
    pub bbs: [u64; 12],
    pub white_to_move: bool,
    pub ep_square: Option<u64>,
    pub halfmove_clock: u8,
    /// Kingside and queenside.
    pub white_castlerights: [bool; 2],
    pub black_castlerights: [bool; 2],
    pub square_masks: [u64; 64],
}

impl GameState {
    /// The mask table maps square `i` to the word with only bit `63 - i`
    /// set.
    pub open spec fn masks_wf(self) -> bool {
        forall|i: int| 0 <= i < 64 ==> self.square_masks@[i] == 1u64 << ((63 - i) as u64)
    }

    /// The bit of the occupancy words that stands for square `sq_idx`.
    pub open spec fn sq_bit(sq_idx: int) -> u64 {
        (63 - sq_idx) as u64
    }

    /// Make an array `masks` such that `masks[i]` is a word with only bit
    /// `63 - i` set.
    pub fn make_square_masks() -> (r: [u64; 64])
        ensures
            forall|i: int| 0 <= i < 64 ==> r@[i] == 1u64 << ((63 - i) as u64),
    {
        let mut square_masks: [u64; 64] = [0; 64];
        let mut i: usize = 0;
        while i < 64
            invariant
                i <= 64,
                forall|j: int| 0 <= j < i ==> square_masks@[j] == 1u64 << ((63 - j) as u64),
            decreases 64 - i,
        {
            square_masks[i] = 1u64 << ((63 - i) as u64);
            i = i + 1;
        }
        square_masks
    }

    /// Determine whether the bit for `sq_idx` on the occupancy word given by
    /// `bb_idx` is set.
    pub fn bit_set(&self, bb_idx: usize, sq_idx: usize) -> (r: bool)
        requires
            self.masks_wf(),
            bb_idx < 12,
            sq_idx < 64,
        ensures
            r == bit64(self.bbs@[bb_idx as int], Self::sq_bit(sq_idx as int)),
    {
        proof {
            lemma_bit64_mask_test(self.bbs@[bb_idx as int], Self::sq_bit(sq_idx as int));
        }
        self.bbs[bb_idx] & self.square_masks[sq_idx] != 0
    }

    /// Find the index of the occupancy word with the square's bit set, the
    /// first one if several have it; none if the square is empty everywhere.
    pub fn occupying_bb_idx(&self, sq_idx: usize) -> (r: Option<usize>)
        requires
            self.masks_wf(),
            sq_idx < 64,
        ensures
            r is Some <==> first_occupying(self.bbs@, Self::sq_bit(sq_idx as int), 0) is Some,
            r matches Some(i) ==> i < 12 && first_occupying(self.bbs@, Self::sq_bit(sq_idx as int), 0)
                == Some(i as int),
    {
        let ghost b = Self::sq_bit(sq_idx as int);
        let mut i: usize = 0;
        while i < 12
            invariant
                self.masks_wf(),
                sq_idx < 64,
                b == Self::sq_bit(sq_idx as int),
                i <= 12,
                first_occupying(self.bbs@, b, 0) == first_occupying(self.bbs@, b, i as int),
            decreases 12 - i,
        {
            proof {
                lemma_bit64_mask_test(self.bbs@[i as int], b);
            }
            if self.bbs[i] & self.square_masks[sq_idx] != 0 {
                return Some(i);
            }
            i = i + 1;
        }
        None
    }

    /// Set the bit for `sq_idx` on the occupancy word given by `bb_idx`.
    pub fn set_bit(&mut self, bb_idx: usize, sq_idx: usize)
        requires
            old(self).masks_wf(),
            bb_idx < 12,
            sq_idx < 64,
        ensures
            final(self).bbs@ == old(self).bbs@.update(
                bb_idx as int,
                old(self).bbs@[bb_idx as int] | (1u64 << Self::sq_bit(sq_idx as int)),
            ),
            final(self).white_to_move == old(self).white_to_move,
            final(self).ep_square == old(self).ep_square,
            final(self).halfmove_clock == old(self).halfmove_clock,
            final(self).white_castlerights == old(self).white_castlerights,
            final(self).black_castlerights == old(self).black_castlerights,
            final(self).square_masks == old(self).square_masks,
    {
        self.bbs[bb_idx] = self.bbs[bb_idx] | self.square_masks[sq_idx];
    }

    /// Clear the bit for `sq_idx` on the occupancy word given by `bb_idx`.
    pub fn unset_bit(&mut self, bb_idx: usize, sq_idx: usize)
        requires
            old(self).masks_wf(),
            bb_idx < 12,
            sq_idx < 64,
        ensures
            final(self).bbs@ == old(self).bbs@.update(
                bb_idx as int,
                old(self).bbs@[bb_idx as int] & !(1u64 << Self::sq_bit(sq_idx as int)),
            ),
            final(self).white_to_move == old(self).white_to_move,
            final(self).ep_square == old(self).ep_square,
            final(self).halfmove_clock == old(self).halfmove_clock,
            final(self).white_castlerights == old(self).white_castlerights,
            final(self).black_castlerights == old(self).black_castlerights,
            final(self).square_masks == old(self).square_masks,
    {
        self.bbs[bb_idx] = self.bbs[bb_idx] & !self.square_masks[sq_idx];
    }

    /// Make a move on the board: remove whatever the to-square holds, then
    /// relocate the piece on the from-square to the to-square. The
    /// from-square must be occupied.
    pub fn make_move(&mut self, game_move: GameMove)
        requires
            old(self).masks_wf(),
            first_occupying(
                old(self).bbs@,
                Self::sq_bit((game_move.repr >> 10) as int),
                0,
            ) is Some,
        ensures
            final(self).bbs@ == moved_bbs(
                old(self).bbs@,
                Self::sq_bit((game_move.repr >> 10) as int),
                Self::sq_bit(((game_move.repr >> 4) & 63) as int),
            ),
            final(self).white_to_move == old(self).white_to_move,
            final(self).ep_square == old(self).ep_square,
            final(self).halfmove_clock == old(self).halfmove_clock,
            final(self).white_castlerights == old(self).white_castlerights,
            final(self).black_castlerights == old(self).black_castlerights,
            final(self).square_masks == old(self).square_masks,
    {
        let fromsquare = game_move.fromsquare();
        let tosquare = game_move.tosquare();
        let moving_bb_idx = match self.occupying_bb_idx(fromsquare) {
            Some(i) => i,
            None => unreached(),
        };
        let captured_bb_idx = self.occupying_bb_idx(tosquare);
        if let Some(bb_idx) = captured_bb_idx {
            self.unset_bit(bb_idx, tosquare);
        }
        self.unset_bit(moving_bb_idx, fromsquare);
        self.set_bit(moving_bb_idx, tosquare);
        proof {
            assert(final(self).bbs@ =~= moved_bbs(
                old(self).bbs@,
                Self::sq_bit((game_move.repr >> 10) as int),
                Self::sq_bit(((game_move.repr >> 4) & 63) as int),
            ));
        }
    }
}

/// An early sketch of the move encoding: from-square in the top 6 bits,
/// to-square in the next 6, metadata in the low 4.
pub struct GameMove {
    pub repr: u16,
}

impl GameMove {
    /// Create a game move from a packed 16-bit value.
    pub fn from_val(val: u16) -> (r: Self)
        ensures
            r.repr == val,
    {
        GameMove { repr: val }
    }

    /// The from-square index of this move.
    pub fn fromsquare(&self) -> (r: usize)
        ensures
            r == game_move_from(*self),
            r < 64,
    {
        proof {
            let d = self.repr;
            assert((d >> 10u16) < 64) by (bit_vector);
        }
        (self.repr >> 10).into()
    }

    /// The to-square index of this move.
    pub fn tosquare(&self) -> (r: usize)
        ensures
            r == game_move_to(*self),
            r < 64,
    {
        proof {
            let d = self.repr;
            assert(((d >> 4u16) & 63) < 64) by (bit_vector);
        }
        (self.repr >> 4 & 63).into()
    }
}

/// The from-square a packed move holds.
pub open spec fn game_move_from(m: GameMove) -> u16 {
    m.repr >> 10
}

/// The to-square a packed move holds.
pub open spec fn game_move_to(m: GameMove) -> u16 {
    (m.repr >> 4) & 63
}

} // verus!
