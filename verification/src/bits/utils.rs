//! Bit primitives on 64-bit occupancy words: least-significant-bit scan and
//! isolation, and square index arithmetic.

use vstd::prelude::*;
use vstd::std_specs::bits::u64_trailing_zeros;

verus! {

/// True when bit `i` of `bb` is set (`i` below 64).
pub open spec fn bit64(bb: u64, i: u64) -> bool {
    (bb >> i) & 1 == 1
}

/// Index of the least significant set bit of `bb`, or 64 when `bb` is zero.
pub open spec fn lsb_index(bb: u64) -> u64 {
    u64_trailing_zeros(bb) as u64
}

/// The characterizing properties of `lsb_index`.
pub proof fn lemma_lsb_index(bb: u64)
    ensures
        bb == 0 ==> lsb_index(bb) == 64,
        bb != 0 ==> lsb_index(bb) < 64 && bit64(bb, lsb_index(bb)),
        forall|j: u64| j < lsb_index(bb) ==> !bit64(bb, j),
{
    vstd::std_specs::bits::axiom_u64_trailing_zeros(bb);
    assert forall|j: u64| j < lsb_index(bb) implies !bit64(bb, j) by {
        assert((bb >> j) & 1u64 == 0u64);
    }
}

/// Get the index of the least significant set bit of the given occupancy
/// word, or 64 when the word is zero.
pub fn bitscan(bb: u64) -> (r: u32)
    ensures
        r == lsb_index(bb),
{
    bb.trailing_zeros()
}

/// Get an occupancy word retaining only the least significant set bit of
/// `bb`; zero when `bb` is zero.
pub fn lsb_mask(bb: u64) -> (r: u64)
    ensures
        bb == 0 ==> r == 0,
        bb != 0 ==> r == 1u64 << lsb_index(bb),
{
    let m = 0u64.wrapping_sub(bb);
    proof {
        lemma_lsb_index(bb);
        if bb != 0 {
            let k = lsb_index(bb);
            vstd::std_specs::bits::axiom_u64_trailing_zeros(bb);
            assert(m == (0 - bb + 0x1_0000_0000_0000_0000) as u64);
            assert(bb & m == 1u64 << k) by (bit_vector)
                requires
                    k < 64,
                    (bb >> k) & 1 == 1,
                    bb << ((64 - k) as u64) == 0,
                    m == (0 - bb + 0x1_0000_0000_0000_0000) as u64,
            ;
        } else {
            assert(0u64 & 0u64 == 0) by (bit_vector);
        }
    }
    bb & m
}

/// How `|`, `&`, `!` and `<<` act on single bits of a 64-bit word.
pub proof fn lemma_bit64_basics(x: u64, y: u64, s: u64, t: u64)
    by (bit_vector)
    ensures
        t < 64 ==> !bit64(0u64, t),
        t < 64 ==> (bit64(x | y, t) <==> bit64(x, t) || bit64(y, t)),
        s < 64 && t < 64 ==> (bit64(1u64 << s, t) <==> s == t),
        s < 64 && t < 64 ==> (bit64(x & !(1u64 << s), t) <==> bit64(x, t) && s != t),
        t < 64 ==> (bit64(x & y, t) <==> bit64(x, t) && bit64(y, t)),
        t < 64 ==> (bit64(!x, t) <==> !bit64(x, t)),
{
}

/// Testing a bit by masking: the masked word is nonzero exactly when the
/// bit is set.
pub proof fn lemma_bit64_mask_test(x: u64, s: u64)
    by (bit_vector)
    requires
        s < 64,
    ensures
        (x & (1u64 << s) != 0) <==> bit64(x, s),
{
}

/// Clearing a set bit strictly decreases the word.
pub proof fn lemma_clear_bit_decreases(x: u64, s: u64)
    by (bit_vector)
    requires
        s < 64,
        (x >> s) & 1 == 1,
    ensures
        x & !(1u64 << s) < x,
{
}

/// How shifting a word moves its bits.
pub proof fn lemma_bit64_shift(x: u64, s: u64, t: u64)
    by (bit_vector)
    requires
        s < 64,
        t < 64,
    ensures
        bit64(x << s, t) <==> (t >= s && bit64(x, (t - s) as u64)),
        bit64(x >> s, t) <==> (t + s < 64 && bit64(x, (t + s) as u64)),
{
}

/// The word `n` ones in the low positions (all ones when `n` is 64 or more).
pub open spec fn low_mask(n: u64) -> u64 {
    if n >= 64 {
        0xffff_ffff_ffff_ffffu64
    } else {
        ((1u64 << n) - 1) as u64
    }
}

proof fn lemma_low_bits_ext(x: u64, y: u64, n: u64)
    requires
        n <= 64,
        forall|t: u64| t < n ==> (bit64(x, t) <==> bit64(y, t)),
    ensures
        x & low_mask(n) == y & low_mask(n),
    decreases n,
{
    if n == 0 {
        assert(x & low_mask(0) == y & low_mask(0)) by (bit_vector);
    } else {
        lemma_low_bits_ext(x, y, (n - 1) as u64);
        let m = (n - 1) as u64;
        assert(bit64(x, m) <==> bit64(y, m));
        assert(x & low_mask(n) == y & low_mask(n)) by (bit_vector)
            requires
                n <= 64,
                m == (n - 1) as u64,
                x & low_mask(m) == y & low_mask(m),
                (bit64(x, m) <==> bit64(y, m)),
        ;
    }
}

/// Two 64-bit words with the same bits are equal.
pub proof fn lemma_u64_bit_ext(x: u64, y: u64)
    requires
        forall|t: u64| t < 64 ==> (bit64(x, t) <==> bit64(y, t)),
    ensures
        x == y,
{
    lemma_low_bits_ext(x, y, 64);
    assert(x & low_mask(64) == x && y & low_mask(64) == y) by (bit_vector);
}

/// Get the index of a square from its rank and file indices.
pub fn square_idx(rank_idx: u8, file_idx: u8) -> (r: u8)
    requires
        rank_idx < 8,
        file_idx < 8,
    ensures
        r == rank_idx * 8 + file_idx,
{
    proof {
        assert(rank_idx < 8 ==> (rank_idx << 3) == rank_idx * 8) by (bit_vector);
    }
    (rank_idx << 3) + file_idx
}

/// Get the file index of a square.
pub fn file_idx(square_idx: u8) -> (r: u8)
    ensures
        r == square_idx % 8,
{
    proof {
        assert(square_idx & 7 == square_idx % 8) by (bit_vector);
    }
    square_idx & 7
}

/// Get the rank index of a square.
pub fn rank_idx(square_idx: u8) -> (r: u8)
    ensures
        r == square_idx / 8,
{
    proof {
        assert(square_idx >> 3 == square_idx / 8) by (bit_vector);
    }
    square_idx >> 3
}

} // verus!
