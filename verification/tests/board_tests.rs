//! Tests for the mask tables, the bit primitives, and the early board
//! sketch at the crate root.

use bongcloud::bits::masks::{
    make_knight_mask, make_square_masks, FILE_A, FILE_H, RANK_1, RANK_8,
};
use bongcloud::bits::biterator::{biterator, bitboarderator};
use bongcloud::bits::utils;
use bongcloud::{GameMove, GameState};

#[test]
fn test_make_square_masks() {
    let squares = make_square_masks();
    assert!(squares[0] == RANK_1 & FILE_A);
    assert!(squares[7] == RANK_1 & FILE_H);
    assert!(squares[56] == RANK_8 & FILE_A);
    assert!(squares[63] == RANK_8 & FILE_H);
}

#[test]
fn test_make_move() {
    let mut game_state = GameState {
        bbs: [0; 12],
        white_to_move: true,
        ep_square: None,
        halfmove_clock: 0,
        white_castlerights: [true; 2],
        black_castlerights: [true; 2],
        square_masks: GameState::make_square_masks(),
    };
    game_state.set_bit(0, 0);

    let game_move = GameMove::from_val(0b000000_111111_0000u16);
    assert_eq!(game_move.fromsquare(), 0);
    assert_eq!(game_move.tosquare(), 63);

    assert_eq!(game_state.occupying_bb_idx(0), Some(0));
    assert_eq!(game_state.occupying_bb_idx(63), None);
    game_state.make_move(game_move);
    assert_eq!(game_state.occupying_bb_idx(0), None);
    game_state.set_bit(0, 63);
    println!("0 bitboard is {}", game_state.bbs[0]);
    assert_eq!(game_state.occupying_bb_idx(63), Some(0));
}

#[test]
fn test_set_unset() {
    let mut game_state = GameState {
        bbs: [0; 12],
        white_to_move: true,
        ep_square: None,
        halfmove_clock: 0,
        white_castlerights: [true; 2],
        black_castlerights: [true; 2],
        square_masks: GameState::make_square_masks(),
    };

    game_state.set_bit(0, 30);
    assert!(game_state.bit_set(0, 30));
    game_state.unset_bit(0, 30);
    assert!(!game_state.bit_set(0, 30));
}

#[test]
fn test_square_index_arithmetic() {
    assert_eq!(utils::square_idx(0, 0), 0);
    assert_eq!(utils::square_idx(2, 4), 20);
    assert_eq!(utils::square_idx(7, 7), 63);
    assert_eq!(utils::file_idx(20), 4);
    assert_eq!(utils::rank_idx(20), 2);
    assert_eq!(utils::file_idx(63), 7);
    assert_eq!(utils::rank_idx(63), 7);
    assert_eq!(bongcloud::square_idx(5, 3), 43);
    assert_eq!(bongcloud::file_idx(43), 3);
    assert_eq!(bongcloud::rank_idx(43), 5);
}

#[test]
fn test_bitscan_and_lsb_mask() {
    assert_eq!(utils::bitscan(0b10110), 1);
    assert_eq!(utils::bitscan(1 << 63), 63);
    assert_eq!(utils::bitscan(0), 64);
    assert_eq!(utils::lsb_mask(0b10110), 0b10);
    assert_eq!(utils::lsb_mask(0), 0);
}

#[test]
fn test_biterators() {
    let mut bits = biterator(0b10110);
    assert_eq!(bits.next(), Some(1));
    assert_eq!(bits.next(), Some(2));
    assert_eq!(bits.next(), Some(4));
    assert_eq!(bits.next(), None);

    let mut boards = bitboarderator(0b10110);
    assert_eq!(boards.next(), Some(0b10));
    assert_eq!(boards.next(), Some(0b100));
    assert_eq!(boards.next(), Some(0b10000));
    assert_eq!(boards.next(), None);
}

#[test]
fn test_knight_masks() {
    // A knight in the corner attacks only two squares.
    assert_eq!(make_knight_mask(0), (1u64 << 10) | (1u64 << 17));
    // A knight in the middle attacks all eight.
    let expected: u64 = (1u64 << 10)
        | (1u64 << 12)
        | (1u64 << 17)
        | (1u64 << 21)
        | (1u64 << 33)
        | (1u64 << 37)
        | (1u64 << 42)
        | (1u64 << 44);
    assert_eq!(make_knight_mask(27), expected);
    let table = bongcloud::bits::masks::make_knight_move_masks();
    assert_eq!(table[0], make_knight_mask(0));
    assert_eq!(table[27], make_knight_mask(27));
}
