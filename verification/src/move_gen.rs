//! Move generation scaffolding: filling a move list from a position's
//! occupancy words. Only knight moves and pawn pushes are covered so far,
//! and `gen_legal_moves` itself is still a stub.

use vstd::prelude::*;
use crate::game_state::{GameState, BitBoard};
use crate::game_move::{GameMove, MoveType};
use crate::move_list::MoveList;
use crate::bits::biterator::biterator;
use crate::bits::masks;
use crate::bits::utils::{bit64, lemma_bit64_basics, lemma_bit64_shift, lemma_clear_bit_decreases};

verus! {

/// Whether the list holds a move with the given squares and kind code.
pub open spec fn list_has_move(s: Seq<GameMove>, from: u64, to: u64, code: u16) -> bool {
    exists|i: int|
        0 <= i < s.len() && (#[trigger] s[i]).from_sq() == from && s[i].to_sq() == to
            && s[i].kind_code() == code
}

/// Pushing a move keeps every move the list had, and adds the new one.
proof fn lemma_list_has_move_push(pre: Seq<GameMove>, post: Seq<GameMove>, m: GameMove)
    requires
        post == pre.push(m),
    ensures
        forall|f: u64, t: u64, c: u16|
            #[trigger] list_has_move(pre, f, t, c) ==> list_has_move(post, f, t, c),
        list_has_move(post, m.from_sq() as u64, m.to_sq() as u64, m.kind_code()),
{
    assert(post[pre.len() as int] == m);
    assert forall|f: u64, t: u64, c: u16|
        #[trigger] list_has_move(pre, f, t, c) implies list_has_move(post, f, t, c) by {
        let i = choose|i: int|
            0 <= i < pre.len() && (#[trigger] pre[i]).from_sq() == f && pre[i].to_sq() == t
                && pre[i].kind_code() == c;
        assert(post[i] == pre[i]);
    }
}

/// Which bits remain after clearing one: every other set bit.
proof fn lemma_clear_bit_bits(x: u64, s: u64)
    requires
        s < 64,
    ensures
        forall|j: u64| j < 64 ==> (#[trigger] bit64(x & !(1u64 << s), j) <==> bit64(x, j) && j != s),
{
    assert forall|j: u64| j < 64 implies (#[trigger] bit64(x & !(1u64 << s), j) <==> bit64(x, j) && j
        != s) by {
        lemma_bit64_basics(x, 0, s, j);
    }
}

/// The zero word has no set bits.
proof fn lemma_zero_bits()
    ensures
        forall|j: u64| j < 64 ==> !(#[trigger] bit64(0u64, j)),
{
    assert forall|j: u64| j < 64 implies !(#[trigger] bit64(0u64, j)) by {
        lemma_bit64_basics(0, 0, 0, j);
    }
}

/// What a generated knight move looks like: the knight stands on the source
/// square, the destination is a knight's move away, and the kind matches the
/// destination's occupancy.
pub open spec fn knight_move_shaped(
    m: GameMove,
    movable_knights: BitBoard,
    stm_occupancy: BitBoard,
    opp_occupancy: BitBoard,
) -> bool {
    let from = m.from_sq() as u64;
    let to = m.to_sq() as u64;
    &&& bit64(movable_knights, from)
    &&& bit64(masks::knight_mask_spec(from), to)
    &&& (m.kind_code() == 0 || m.kind_code() == 4)
    &&& (m.kind_code() == 0 ==> !bit64(stm_occupancy, to) && !bit64(opp_occupancy, to))
    &&& (m.kind_code() == 4 ==> bit64(opp_occupancy, to))
}

/// Generate the legal moves of a position. Move generation is an external
/// concern and is not implemented yet: the list comes back empty.
pub fn gen_legal_moves(state: GameState) -> (r: MoveList)
    ensures
        r@ == Seq::<GameMove>::empty(),
{
    MoveList::new()
}

/// Append the knight moves to the given move list: for each knight of
/// `movable_knights`, a quiet move to every unoccupied destination a
/// knight's move away, and a capture to every such destination occupied by
/// the opponent — all of them, and nothing else.
pub fn append_knight_moves(
    move_list: &mut MoveList,
    movable_knights: BitBoard,
    stm_occupancy: BitBoard,
    opp_occupancy: BitBoard,
)
    ensures
        final(move_list)@.len() >= old(move_list)@.len(),
        final(move_list)@.subrange(0, old(move_list)@.len() as int) == old(move_list)@,
        forall|i: int|
            old(move_list)@.len() <= i < final(move_list)@.len() ==> knight_move_shaped(
                #[trigger] final(move_list)@[i],
                movable_knights,
                stm_occupancy,
                opp_occupancy,
            ),
        forall|ks: u64, ts: u64|
            ks < 64 && ts < 64 && bit64(movable_knights, ks) && #[trigger] bit64(
                masks::knight_mask_spec(ks),
                ts,
            ) && !bit64(stm_occupancy, ts) && !bit64(opp_occupancy, ts) ==> list_has_move(
                final(move_list)@,
                ks,
                ts,
                0,
            ),
        forall|ks: u64, ts: u64|
            ks < 64 && ts < 64 && bit64(movable_knights, ks) && #[trigger] bit64(
                masks::knight_mask_spec(ks),
                ts,
            ) && bit64(opp_occupancy, ts) ==> list_has_move(final(move_list)@, ks, ts, 4),
{
    let ghost entry = move_list@;
    let mut knights = biterator(movable_knights);
    while knights.bb != 0
        invariant
            forall|j: u64| j < 64 && #[trigger] bit64(knights.bb, j) ==> bit64(movable_knights, j),
            move_list@.len() >= entry.len(),
            move_list@.subrange(0, entry.len() as int) == entry,
            forall|i: int|
                entry.len() <= i < move_list@.len() ==> knight_move_shaped(
                    #[trigger] move_list@[i],
                    movable_knights,
                    stm_occupancy,
                    opp_occupancy,
                ),
            forall|ks: u64, ts: u64|
                ks < 64 && ts < 64 && bit64(movable_knights, ks) && !bit64(knights.bb, ks)
                    && #[trigger] bit64(masks::knight_mask_spec(ks), ts) && !bit64(
                    stm_occupancy,
                    ts,
                ) && !bit64(opp_occupancy, ts) ==> list_has_move(move_list@, ks, ts, 0),
            forall|ks: u64, ts: u64|
                ks < 64 && ts < 64 && bit64(movable_knights, ks) && !bit64(knights.bb, ks)
                    && #[trigger] bit64(masks::knight_mask_spec(ks), ts) && bit64(
                    opp_occupancy,
                    ts,
                ) ==> list_has_move(move_list@, ks, ts, 4),
        decreases knights.bb,
    {
        let ghost pre_bb = knights.bb;
        let knight_sq = match knights.next() {
            Some(k) => k,
            None => unreached(),
        };
        let ghost ks64 = knight_sq as u64;
        proof {
            lemma_clear_bit_decreases(pre_bb, ks64);
            lemma_clear_bit_bits(pre_bb, ks64);
            assert forall|ks: u64| ks < 64 && !bit64(knights.bb, ks) && ks != ks64 implies !bit64(
                pre_bb,
                ks,
            ) by {
                assert(bit64(knights.bb, ks) <==> bit64(pre_bb, ks) && ks != ks64);
            }
            assert forall|j: u64| j < 64 && #[trigger] bit64(knights.bb, j) implies bit64(
                movable_knights,
                j,
            ) by {
                assert(bit64(knights.bb, j) <==> bit64(pre_bb, j) && j != ks64);
            }
        }
        let all_moves_bb = masks::make_knight_mask(knight_sq as u8);

        // Quiet moves: destinations unoccupied by either side.
        let free = !(stm_occupancy | opp_occupancy);
        let moves_bb = all_moves_bb & free;
        proof {
            assert forall|t: u64| t < 64 implies (#[trigger] bit64(moves_bb, t) <==> (bit64(
                masks::knight_mask_spec(ks64),
                t,
            ) && !bit64(stm_occupancy, t) && !bit64(opp_occupancy, t))) by {
                lemma_bit64_basics(all_moves_bb, free, 0, t);
                lemma_bit64_basics(stm_occupancy | opp_occupancy, 0, 0, t);
                lemma_bit64_basics(stm_occupancy, opp_occupancy, 0, t);
            }
        }
        let mut mover = biterator(moves_bb);
        while mover.bb != 0
            invariant
                knight_sq < 64,
                ks64 == knight_sq as u64,
                bit64(movable_knights, ks64),
                forall|j: u64| j < 64 && #[trigger] bit64(mover.bb, j) ==> bit64(moves_bb, j),
                forall|t: u64|
                    t < 64 ==> (#[trigger] bit64(moves_bb, t) <==> (bit64(
                        masks::knight_mask_spec(ks64),
                        t,
                    ) && !bit64(stm_occupancy, t) && !bit64(opp_occupancy, t))),
                move_list@.len() >= entry.len(),
                move_list@.subrange(0, entry.len() as int) == entry,
                forall|i: int|
                    entry.len() <= i < move_list@.len() ==> knight_move_shaped(
                        #[trigger] move_list@[i],
                        movable_knights,
                        stm_occupancy,
                        opp_occupancy,
                    ),
                forall|ks: u64, ts: u64|
                    ks < 64 && ts < 64 && bit64(movable_knights, ks) && !bit64(knights.bb, ks) && ks
                        != ks64 && #[trigger] bit64(masks::knight_mask_spec(ks), ts) && !bit64(
                        stm_occupancy,
                        ts,
                    ) && !bit64(opp_occupancy, ts) ==> list_has_move(move_list@, ks, ts, 0),
                forall|ks: u64, ts: u64|
                    ks < 64 && ts < 64 && bit64(movable_knights, ks) && !bit64(knights.bb, ks) && ks
                        != ks64 && #[trigger] bit64(masks::knight_mask_spec(ks), ts) && bit64(
                        opp_occupancy,
                        ts,
                    ) ==> list_has_move(move_list@, ks, ts, 4),
                forall|ts: u64|
                    ts < 64 && #[trigger] bit64(moves_bb, ts) && !bit64(mover.bb, ts)
                        ==> list_has_move(move_list@, ks64, ts, 0),
            decreases mover.bb,
        {
            let ghost pre_mover = mover.bb;
            let ghost pre_list = move_list@;
            let move_sq = match mover.next() {
                Some(t) => t,
                None => unreached(),
            };
            proof {
                lemma_clear_bit_decreases(pre_mover, move_sq as u64);
                lemma_clear_bit_bits(pre_mover, move_sq as u64);
            }
            let new_move = GameMove::new(knight_sq as u8, move_sq as u8, MoveType::Quiet);
            move_list.push(new_move);
            proof {
                lemma_list_has_move_push(pre_list, move_list@, new_move);
                assert(move_list@.subrange(0, entry.len() as int) =~= entry);
                assert(new_move.from_sq() as u64 == ks64 && new_move.to_sq() as u64 == move_sq
                    as u64 && new_move.kind_code() == 0);
            }
        }
        proof {
            lemma_zero_bits();
            assert forall|ts: u64|
                ts < 64 && #[trigger] bit64(masks::knight_mask_spec(ks64), ts) && !bit64(
                    stm_occupancy,
                    ts,
                ) && !bit64(opp_occupancy, ts) implies list_has_move(move_list@, ks64, ts, 0) by {
                assert(bit64(moves_bb, ts));
                assert(!bit64(mover.bb, ts));
            }
        }
        // Captures: destinations occupied by the opponent.
        let captures_bb = all_moves_bb & opp_occupancy;
        proof {
            assert forall|t: u64| t < 64 implies (#[trigger] bit64(captures_bb, t) <==> (bit64(
                masks::knight_mask_spec(ks64),
                t,
            ) && bit64(opp_occupancy, t))) by {
                lemma_bit64_basics(all_moves_bb, opp_occupancy, 0, t);
            }
        }
        let mut capturer = biterator(captures_bb);
        while capturer.bb != 0
            invariant
                knight_sq < 64,
                ks64 == knight_sq as u64,
                bit64(movable_knights, ks64),
                forall|j: u64| j < 64 && #[trigger] bit64(capturer.bb, j) ==> bit64(captures_bb, j),
                forall|t: u64|
                    t < 64 ==> (#[trigger] bit64(captures_bb, t) <==> (bit64(
                        masks::knight_mask_spec(ks64),
                        t,
                    ) && bit64(opp_occupancy, t))),
                move_list@.len() >= entry.len(),
                move_list@.subrange(0, entry.len() as int) == entry,
                forall|i: int|
                    entry.len() <= i < move_list@.len() ==> knight_move_shaped(
                        #[trigger] move_list@[i],
                        movable_knights,
                        stm_occupancy,
                        opp_occupancy,
                    ),
                forall|ks: u64, ts: u64|
                    ks < 64 && ts < 64 && bit64(movable_knights, ks) && (!bit64(knights.bb, ks)
                        || ks == ks64) && #[trigger] bit64(masks::knight_mask_spec(ks), ts)
                        && !bit64(stm_occupancy, ts) && !bit64(opp_occupancy, ts)
                        ==> list_has_move(move_list@, ks, ts, 0),
                forall|ks: u64, ts: u64|
                    ks < 64 && ts < 64 && bit64(movable_knights, ks) && !bit64(knights.bb, ks) && ks
                        != ks64 && #[trigger] bit64(masks::knight_mask_spec(ks), ts) && bit64(
                        opp_occupancy,
                        ts,
                    ) ==> list_has_move(move_list@, ks, ts, 4),
                forall|ts: u64|
                    ts < 64 && #[trigger] bit64(captures_bb, ts) && !bit64(capturer.bb, ts)
                        ==> list_has_move(move_list@, ks64, ts, 4),
            decreases capturer.bb,
        {
            let ghost pre_capturer = capturer.bb;
            let ghost pre_list = move_list@;
            let cap_sq = match capturer.next() {
                Some(t) => t,
                None => unreached(),
            };
            proof {
                lemma_clear_bit_decreases(pre_capturer, cap_sq as u64);
                lemma_clear_bit_bits(pre_capturer, cap_sq as u64);
            }
            let new_move = GameMove::new(knight_sq as u8, cap_sq as u8, MoveType::Capture);
            move_list.push(new_move);
            proof {
                lemma_list_has_move_push(pre_list, move_list@, new_move);
                assert(move_list@.subrange(0, entry.len() as int) =~= entry);
                assert(new_move.from_sq() as u64 == ks64 && new_move.to_sq() as u64 == cap_sq as u64
                    && new_move.kind_code() == 4);
            }
        }
        proof {
            lemma_zero_bits();
            assert forall|ts: u64|
                ts < 64 && #[trigger] bit64(masks::knight_mask_spec(ks64), ts) && bit64(
                    opp_occupancy,
                    ts,
                ) implies list_has_move(move_list@, ks64, ts, 4) by {
                assert(bit64(captures_bb, ts));
                assert(!bit64(capturer.bb, ts));
            }
        }
    }
    proof {
        lemma_zero_bits();
    }
}

/// Append the single pawn pushes to the given move list: each pawn of
/// `pushable_pawns` advances one rank (up for white, down for black) when
/// the destination square is unoccupied — all such moves, and nothing else.
pub fn append_pawn_single_pushes(
    move_list: &mut MoveList,
    pushable_pawns: BitBoard,
    total_occupancy: BitBoard,
    white_to_move: bool,
)
    ensures
        final(move_list)@.len() >= old(move_list)@.len(),
        final(move_list)@.subrange(0, old(move_list)@.len() as int) == old(move_list)@,
        forall|i: int|
            old(move_list)@.len() <= i < final(move_list)@.len() ==> {
                let m = #[trigger] final(move_list)@[i];
                &&& m.kind_code() == 0
                &&& bit64(pushable_pawns, m.from_sq() as u64)
                &&& !bit64(total_occupancy, m.to_sq() as u64)
                &&& (if white_to_move {
                    m.to_sq() == m.from_sq() + 8
                } else {
                    m.from_sq() == m.to_sq() + 8
                })
            },
        white_to_move ==> forall|fs: u64|
            fs < 56 && #[trigger] bit64(pushable_pawns, fs) && !bit64(total_occupancy, (fs + 8) as u64)
                ==> list_has_move(final(move_list)@, fs, (fs + 8) as u64, 0),
        !white_to_move ==> forall|fs: u64|
            8 <= fs < 64 && #[trigger] bit64(pushable_pawns, fs) && !bit64(
                total_occupancy,
                (fs - 8) as u64,
            ) ==> list_has_move(final(move_list)@, fs, (fs - 8) as u64, 0),
{
    let ghost entry = move_list@;
    let push_mask = if white_to_move {
        pushable_pawns << 8u64
    } else {
        pushable_pawns >> 8u64
    };
    let pushes = push_mask & !total_occupancy;
    proof {
        assert forall|t: u64| t < 64 implies (#[trigger] bit64(pushes, t) <==> (!bit64(
            total_occupancy,
            t,
        ) && (if white_to_move {
            t >= 8 && bit64(pushable_pawns, (t - 8) as u64)
        } else {
            t + 8 < 64 && bit64(pushable_pawns, (t + 8) as u64)
        }))) by {
            lemma_bit64_basics(push_mask, !total_occupancy, 0, t);
            lemma_bit64_basics(total_occupancy, 0, 0, t);
            lemma_bit64_shift(pushable_pawns, 8, t);
        }
    }
    let mut pusher = biterator(pushes);
    while pusher.bb != 0
        invariant
            forall|j: u64| j < 64 && #[trigger] bit64(pusher.bb, j) ==> bit64(pushes, j),
            forall|t: u64|
                t < 64 ==> (#[trigger] bit64(pushes, t) <==> (!bit64(total_occupancy, t) && (
                if white_to_move {
                    t >= 8 && bit64(pushable_pawns, (t - 8) as u64)
                } else {
                    t + 8 < 64 && bit64(pushable_pawns, (t + 8) as u64)
                }))),
            move_list@.len() >= entry.len(),
            move_list@.subrange(0, entry.len() as int) == entry,
            forall|i: int|
                entry.len() <= i < move_list@.len() ==> {
                    let m = #[trigger] move_list@[i];
                    &&& m.kind_code() == 0
                    &&& bit64(pushable_pawns, m.from_sq() as u64)
                    &&& !bit64(total_occupancy, m.to_sq() as u64)
                    &&& (if white_to_move {
                        m.to_sq() == m.from_sq() + 8
                    } else {
                        m.from_sq() == m.to_sq() + 8
                    })
                },
            forall|ts: u64|
                ts < 64 && #[trigger] bit64(pushes, ts) && !bit64(pusher.bb, ts) ==> list_has_move(
                    move_list@,
                    (if white_to_move {
                        (ts - 8) as u64
                    } else {
                        (ts + 8) as u64
                    }),
                    ts,
                    0,
                ),
        decreases pusher.bb,
    {
        let ghost pre_pusher = pusher.bb;
        let ghost pre_list = move_list@;
        let move_sq = match pusher.next() {
            Some(t) => t,
            None => unreached(),
        };
        proof {
            lemma_clear_bit_decreases(pre_pusher, move_sq as u64);
            lemma_clear_bit_bits(pre_pusher, move_sq as u64);
        }
        let push_move = if white_to_move {
            GameMove::new((move_sq - 8) as u8, move_sq as u8, MoveType::Quiet)
        } else {
            GameMove::new((move_sq + 8) as u8, move_sq as u8, MoveType::Quiet)
        };
        move_list.push(push_move);
        proof {
            lemma_list_has_move_push(pre_list, move_list@, push_move);
            assert(move_list@.subrange(0, entry.len() as int) =~= entry);
        }
    }
    proof {
        lemma_zero_bits();
        if white_to_move {
            assert forall|fs: u64|
                fs < 56 && #[trigger] bit64(pushable_pawns, fs) && !bit64(
                    total_occupancy,
                    (fs + 8) as u64,
                ) implies list_has_move(move_list@, fs, (fs + 8) as u64, 0) by {
                assert(bit64(pushes, (fs + 8) as u64));
                assert(!bit64(pusher.bb, (fs + 8) as u64));
            }
        } else {
            assert forall|fs: u64|
                8 <= fs < 64 && #[trigger] bit64(pushable_pawns, fs) && !bit64(
                    total_occupancy,
                    (fs - 8) as u64,
                ) implies list_has_move(move_list@, fs, (fs - 8) as u64, 0) by {
                assert(bit64(pushes, (fs - 8) as u64));
                assert(!bit64(pusher.bb, (fs - 8) as u64));
            }
        }
    }
}

/// Append the double pawn pushes to the given move list: each pawn of
/// `pushable_pawns` on its double-push home rank advances two ranks when the
/// screening test on the shifted occupancy passes (the occupancy word,
/// shifted one rank toward the pawn, leaves the pawn's square clear) — all
/// such moves, and nothing else.
pub fn append_pawn_double_pushes(
    move_list: &mut MoveList,
    pushable_pawns: BitBoard,
    total_occupancy: BitBoard,
    white_to_move: bool,
)
    ensures
        final(move_list)@.len() >= old(move_list)@.len(),
        final(move_list)@.subrange(0, old(move_list)@.len() as int) == old(move_list)@,
        forall|i: int|
            old(move_list)@.len() <= i < final(move_list)@.len() ==> {
                let m = #[trigger] final(move_list)@[i];
                &&& m.kind_code() == 1
                &&& bit64(pushable_pawns, m.from_sq() as u64)
                &&& (if white_to_move {
                    m.from_sq() / 8 == 1 && m.to_sq() == m.from_sq() + 16 && !bit64(
                        total_occupancy,
                        (m.from_sq() - 8) as u64,
                    )
                } else {
                    m.from_sq() / 8 == 6 && m.from_sq() == m.to_sq() + 16 && !bit64(
                        total_occupancy,
                        (m.from_sq() + 8) as u64,
                    )
                })
            },
        white_to_move ==> forall|fs: u64|
            fs < 64 && fs / 8 == 1 && #[trigger] bit64(pushable_pawns, fs) && !bit64(
                total_occupancy,
                (fs - 8) as u64,
            ) ==> list_has_move(final(move_list)@, fs, (fs + 16) as u64, 1),
        !white_to_move ==> forall|fs: u64|
            fs < 64 && fs / 8 == 6 && #[trigger] bit64(pushable_pawns, fs) && !bit64(
                total_occupancy,
                (fs + 8) as u64,
            ) ==> list_has_move(final(move_list)@, fs, (fs - 16) as u64, 1),
{
    let ghost entry = move_list@;
    let started_pawns = if white_to_move {
        pushable_pawns & masks::RANK_2
    } else {
        pushable_pawns & masks::RANK_7
    };
    let not_blocked = if white_to_move {
        started_pawns & !((total_occupancy << 8u64) | (total_occupancy << 16u64))
    } else {
        started_pawns & !((total_occupancy >> 8u64) | (total_occupancy >> 16u64))
    };
    let push_mask = if white_to_move {
        not_blocked << 16u64
    } else {
        not_blocked >> 16u64
    };
    proof {
        assert forall|t: u64| t < 64 implies (#[trigger] bit64(push_mask, t) <==> (
        if white_to_move {
            t >= 16 && (t - 16) / 8 == 1 && bit64(pushable_pawns, (t - 16) as u64) && !bit64(
                total_occupancy,
                (t - 24) as u64,
            )
        } else {
            t + 16 < 64 && (t + 16) / 8 == 6 && bit64(pushable_pawns, (t + 16) as u64) && !bit64(
                total_occupancy,
                (t + 24) as u64,
            )
        })) by {
            lemma_bit64_shift(not_blocked, 16, t);
            if white_to_move {
                if t >= 16 {
                    let fs = (t - 16) as u64;
                    lemma_bit64_basics(
                        started_pawns,
                        !((total_occupancy << 8u64) | (total_occupancy << 16u64)),
                        0,
                        fs,
                    );
                    lemma_bit64_basics(
                        (total_occupancy << 8u64),
                        (total_occupancy << 16u64),
                        0,
                        fs,
                    );
                    lemma_bit64_basics(
                        ((total_occupancy << 8u64) | (total_occupancy << 16u64)),
                        0,
                        0,
                        fs,
                    );
                    lemma_bit64_basics(pushable_pawns, masks::RANK_2, 0, fs);
                    masks::lemma_rank_file_masks(fs);
                    lemma_bit64_shift(total_occupancy, 8, fs);
                    lemma_bit64_shift(total_occupancy, 16, fs);
                }
            } else {
                if t + 16 < 64 {
                    let fs = (t + 16) as u64;
                    lemma_bit64_basics(
                        started_pawns,
                        !((total_occupancy >> 8u64) | (total_occupancy >> 16u64)),
                        0,
                        fs,
                    );
                    lemma_bit64_basics(
                        (total_occupancy >> 8u64),
                        (total_occupancy >> 16u64),
                        0,
                        fs,
                    );
                    lemma_bit64_basics(
                        ((total_occupancy >> 8u64) | (total_occupancy >> 16u64)),
                        0,
                        0,
                        fs,
                    );
                    lemma_bit64_basics(pushable_pawns, masks::RANK_7, 0, fs);
                    masks::lemma_rank_file_masks(fs);
                    lemma_bit64_shift(total_occupancy, 8, fs);
                    lemma_bit64_shift(total_occupancy, 16, fs);
                }
            }
        }
    }
    let mut pusher = biterator(push_mask);
    while pusher.bb != 0
        invariant
            forall|j: u64| j < 64 && #[trigger] bit64(pusher.bb, j) ==> bit64(push_mask, j),
            forall|t: u64|
                t < 64 ==> (#[trigger] bit64(push_mask, t) <==> (if white_to_move {
                    t >= 16 && (t - 16) / 8 == 1 && bit64(pushable_pawns, (t - 16) as u64)
                        && !bit64(total_occupancy, (t - 24) as u64)
                } else {
                    t + 16 < 64 && (t + 16) / 8 == 6 && bit64(pushable_pawns, (t + 16) as u64)
                        && !bit64(total_occupancy, (t + 24) as u64)
                })),
            move_list@.len() >= entry.len(),
            move_list@.subrange(0, entry.len() as int) == entry,
            forall|i: int|
                entry.len() <= i < move_list@.len() ==> {
                    let m = #[trigger] move_list@[i];
                    &&& m.kind_code() == 1
                    &&& bit64(pushable_pawns, m.from_sq() as u64)
                    &&& (if white_to_move {
                        m.from_sq() / 8 == 1 && m.to_sq() == m.from_sq() + 16 && !bit64(
                            total_occupancy,
                            (m.from_sq() - 8) as u64,
                        )
                    } else {
                        m.from_sq() / 8 == 6 && m.from_sq() == m.to_sq() + 16 && !bit64(
                            total_occupancy,
                            (m.from_sq() + 8) as u64,
                        )
                    })
                },
            forall|ts: u64|
                ts < 64 && #[trigger] bit64(push_mask, ts) && !bit64(pusher.bb, ts)
                    ==> list_has_move(
                    move_list@,
                    (if white_to_move {
                        (ts - 16) as u64
                    } else {
                        (ts + 16) as u64
                    }),
                    ts,
                    1,
                ),
        decreases pusher.bb,
    {
        let ghost pre_pusher = pusher.bb;
        let ghost pre_list = move_list@;
        let move_sq = match pusher.next() {
            Some(t) => t,
            None => unreached(),
        };
        proof {
            lemma_clear_bit_decreases(pre_pusher, move_sq as u64);
            lemma_clear_bit_bits(pre_pusher, move_sq as u64);
        }
        let push_move = if white_to_move {
            GameMove::new((move_sq - 16) as u8, move_sq as u8, MoveType::DoublePawnPush)
        } else {
            GameMove::new((move_sq + 16) as u8, move_sq as u8, MoveType::DoublePawnPush)
        };
        move_list.push(push_move);
        proof {
            lemma_list_has_move_push(pre_list, move_list@, push_move);
            assert(move_list@.subrange(0, entry.len() as int) =~= entry);
        }
    }
    proof {
        lemma_zero_bits();
        if white_to_move {
            assert forall|fs: u64|
                fs < 64 && fs / 8 == 1 && #[trigger] bit64(pushable_pawns, fs) && !bit64(
                    total_occupancy,
                    (fs - 8) as u64,
                ) implies list_has_move(move_list@, fs, (fs + 16) as u64, 1) by {
                assert(bit64(push_mask, (fs + 16) as u64));
                assert(!bit64(pusher.bb, (fs + 16) as u64));
            }
        } else {
            assert forall|fs: u64|
                fs < 64 && fs / 8 == 6 && #[trigger] bit64(pushable_pawns, fs) && !bit64(
                    total_occupancy,
                    (fs + 8) as u64,
                ) implies list_has_move(move_list@, fs, (fs - 16) as u64, 1) by {
                assert(bit64(push_mask, (fs - 16) as u64));
                assert(!bit64(pusher.bb, (fs - 16) as u64));
            }
        }
    }
}

} // verus!
