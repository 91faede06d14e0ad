//! Precomputed bitmasks: one per rank, one per file, one per square, and one
//! knight-attack mask per square.

use vstd::prelude::*;
use crate::bits::utils::bit64;

verus! {

// Bit representations for ranks.
pub const RANK_1: u64 = 0xff;
pub const RANK_2: u64 = 0xff00;
pub const RANK_3: u64 = 0xff0000;
pub const RANK_4: u64 = 0xff000000;
pub const RANK_5: u64 = 0xff00000000;
pub const RANK_6: u64 = 0xff0000000000;
pub const RANK_7: u64 = 0xff000000000000;
pub const RANK_8: u64 = 0xff00000000000000;

// Bit representations for files.
pub const FILE_A: u64 = 0x0101010101010101;
pub const FILE_B: u64 = 0x0202020202020202;
pub const FILE_C: u64 = 0x0404040404040404;
pub const FILE_D: u64 = 0x0808080808080808;
pub const FILE_E: u64 = 0x1010101010101010;
pub const FILE_F: u64 = 0x2020202020202020;
pub const FILE_G: u64 = 0x4040404040404040;
pub const FILE_H: u64 = 0x8080808080808080;

/// A rank mask holds exactly the squares of its rank, and a file mask the
/// squares of its file.
pub proof fn lemma_rank_file_masks(t: u64)
    by (bit_vector)
    requires
        t < 64,
    ensures
        bit64(RANK_1, t) <==> t / 8 == 0,
        bit64(RANK_2, t) <==> t / 8 == 1,
        bit64(RANK_7, t) <==> t / 8 == 6,
        bit64(RANK_8, t) <==> t / 8 == 7,
        bit64(FILE_A, t) <==> t % 8 == 0,
        bit64(FILE_H, t) <==> t % 8 == 7,
{
}

/// Make an array of masks such that entry `i` is the word with only bit `i`
/// set.
pub fn make_square_masks() -> (r: [u64; 64])
    ensures
        forall|i: int| 0 <= i < 64 ==> r@[i] == 1u64 << (i as u64),
{
    let mut squares: [u64; 64] = [0; 64];
    let mut i: usize = 0;
    while i < 64
        invariant
            i <= 64,
            forall|j: int| 0 <= j < i ==> squares@[j] == 1u64 << (j as u64),
        decreases 64 - i,
    {
        squares[i] = 1u64 << (i as u64);
        i = i + 1;
    }
    squares
}

/// The knight-attack mask of a square: each of the eight knight offsets of
/// the square's bit, with offsets that would wrap across a board edge masked
/// out by file-boundary masks.
pub open spec fn knight_mask_spec(sq: u64) -> u64 {
    let b = 1u64 << sq;
    ((b << 17) & !FILE_A) | ((b << 10) & !(FILE_A | FILE_B)) | ((b >> 6) & !(FILE_A | FILE_B)) | ((
    b >> 15) & !FILE_A) | ((b << 15) & !FILE_H) | ((b << 6) & !(FILE_H | FILE_G)) | ((b >> 10) & !(
    FILE_H | FILE_G)) | ((b >> 17) & !FILE_H)
}

/// Whether a knight standing on square `s` attacks square `t`: the squares
/// differ by one rank and two files, or by two ranks and one file.
pub open spec fn is_knight_move(s: u64, t: u64) -> bool {
    let sr = s / 8;
    let sf = s % 8;
    let tr = t / 8;
    let tf = t % 8;
    ((sr + 2 == tr || tr + 2 == sr) && (sf + 1 == tf || tf + 1 == sf)) || ((sr + 1 == tr || tr + 1
        == sr) && (sf + 2 == tf || tf + 2 == sf))
}

/// The knight mask holds exactly the squares a knight's move away.
pub proof fn lemma_knight_mask_bits(sq: u64, t: u64)
    by (bit_vector)
    requires
        sq < 64,
        t < 64,
    ensures
        bit64(knight_mask_spec(sq), t) <==> is_knight_move(sq, t),
{
}

/// Make the mask for knight moves from a square: exactly the squares a
/// knight's move away are set.
pub fn make_knight_mask(sq: crate::game_state::Square) -> (r: u64)
    requires
        sq < 64,
    ensures
        r == knight_mask_spec(sq as u64),
        forall|t: u64| t < 64 ==> (#[trigger] bit64(r, t) <==> is_knight_move(sq as u64, t)),
{
    proof {
        assert forall|t: u64| t < 64 implies (#[trigger] bit64(knight_mask_spec(sq as u64), t)
            <==> is_knight_move(sq as u64, t)) by {
            lemma_knight_mask_bits(sq as u64, t);
        }
    }
    let knight_sq = 1u64 << sq;
    let mut mask: u64 = 0;
    mask = mask | (knight_sq << 17) & !FILE_A;
    mask = mask | (knight_sq << 10) & !(FILE_A | FILE_B);
    mask = mask | (knight_sq >> 6) & !(FILE_A | FILE_B);
    mask = mask | (knight_sq >> 15) & !FILE_A;
    mask = mask | (knight_sq << 15) & !FILE_H;
    mask = mask | (knight_sq << 6) & !(FILE_H | FILE_G);
    mask = mask | (knight_sq >> 10) & !(FILE_H | FILE_G);
    mask = mask | (knight_sq >> 17) & !FILE_H;
    proof {
        let b = 1u64 << (sq as u64);
        assert((((((((((0u64 | ((b << 17) & !FILE_A)) | ((b << 10) & !(FILE_A | FILE_B))) | ((b
            >> 6) & !(FILE_A | FILE_B))) | ((b >> 15) & !FILE_A)) | ((b << 15) & !FILE_H)) | ((b
            << 6) & !(FILE_H | FILE_G))) | ((b >> 10) & !(FILE_H | FILE_G))) | ((b >> 17)
            & !FILE_H))) == ((b << 17) & !FILE_A) | ((b << 10) & !(FILE_A | FILE_B)) | ((b >> 6)
            & !(FILE_A | FILE_B)) | ((b >> 15) & !FILE_A) | ((b << 15) & !FILE_H) | ((b << 6) & !(
        FILE_H | FILE_G)) | ((b >> 10) & !(FILE_H | FILE_G)) | ((b >> 17) & !FILE_H))
            by (bit_vector);
    }
    mask
}

/// Make the array of knight-move masks, one per square.
pub fn make_knight_move_masks() -> (r: [u64; 64])
    ensures
        forall|i: int| 0 <= i < 64 ==> r@[i] == knight_mask_spec(i as u64),
{
    let mut masks: [u64; 64] = [0; 64];
    let mut i: usize = 0;
    while i < 64
        invariant
            i <= 64,
            forall|j: int| 0 <= j < i ==> masks@[j] == knight_mask_spec(j as u64),
        decreases 64 - i,
    {
        masks[i] = make_knight_mask(i as u8);
        i = i + 1;
    }
    masks
}

} // verus!
