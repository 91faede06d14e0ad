//! Tests for the textual position codec.

use bongcloud::fen::{
    castlerights_from, ep_square_from, parse_fen, ser_castle_rights, ser_ep_square,
    ser_fullmove_clock, ser_halfmove_clock, ser_side_to_move, to_fen, white_to_move_from,
};
use bongcloud::game_state::{GameState, Piece};

const STARTING_FEN: &str = "rnbqkbnr/pppppppp/8/8/8/8/PPPPPPPP/RNBQKBNR w KQkq - 0 1";

/// Test that the starting record is parsed correctly.
#[test]
fn test_parse_starting_position() {
    let game_state = parse_fen(&STARTING_FEN.to_string()).unwrap();
    assert_eq!(game_state.occupying_piece(0 as u8).unwrap(), Piece::WhiteRook);
    assert_eq!(game_state.occupying_piece(1 as u8).unwrap(), Piece::WhiteKnight);
    assert_eq!(game_state.occupying_piece(2 as u8).unwrap(), Piece::WhiteBishop);
    assert_eq!(game_state.occupying_piece(3 as u8).unwrap(), Piece::WhiteQueen);
    assert_eq!(game_state.occupying_piece(4 as u8).unwrap(), Piece::WhiteKing);
    assert_eq!(game_state.occupying_piece(5 as u8).unwrap(), Piece::WhiteBishop);
    assert_eq!(game_state.occupying_piece(6 as u8).unwrap(), Piece::WhiteKnight);
    assert_eq!(game_state.occupying_piece(7 as u8).unwrap(), Piece::WhiteRook);

    assert_eq!(game_state.occupying_piece(8 as u8).unwrap(), Piece::WhitePawn);
    assert_eq!(game_state.occupying_piece(9 as u8).unwrap(), Piece::WhitePawn);
    assert_eq!(game_state.occupying_piece(10 as u8).unwrap(), Piece::WhitePawn);
    assert_eq!(game_state.occupying_piece(11 as u8).unwrap(), Piece::WhitePawn);
    assert_eq!(game_state.occupying_piece(12 as u8).unwrap(), Piece::WhitePawn);
    assert_eq!(game_state.occupying_piece(13 as u8).unwrap(), Piece::WhitePawn);
    assert_eq!(game_state.occupying_piece(14 as u8).unwrap(), Piece::WhitePawn);
    assert_eq!(game_state.occupying_piece(15 as u8).unwrap(), Piece::WhitePawn);

    for i in 16..48 {
        assert_eq!(game_state.occupying_piece(i as u8), None);
    }

    assert_eq!(game_state.occupying_piece(48 as u8).unwrap(), Piece::BlackPawn);
    assert_eq!(game_state.occupying_piece(49 as u8).unwrap(), Piece::BlackPawn);
    assert_eq!(game_state.occupying_piece(50 as u8).unwrap(), Piece::BlackPawn);
    assert_eq!(game_state.occupying_piece(51 as u8).unwrap(), Piece::BlackPawn);
    assert_eq!(game_state.occupying_piece(52 as u8).unwrap(), Piece::BlackPawn);
    assert_eq!(game_state.occupying_piece(53 as u8).unwrap(), Piece::BlackPawn);
    assert_eq!(game_state.occupying_piece(54 as u8).unwrap(), Piece::BlackPawn);
    assert_eq!(game_state.occupying_piece(55 as u8).unwrap(), Piece::BlackPawn);

    assert_eq!(game_state.occupying_piece(56 as u8).unwrap(), Piece::BlackRook);
    assert_eq!(game_state.occupying_piece(57 as u8).unwrap(), Piece::BlackKnight);
    assert_eq!(game_state.occupying_piece(58 as u8).unwrap(), Piece::BlackBishop);
    assert_eq!(game_state.occupying_piece(59 as u8).unwrap(), Piece::BlackQueen);
    assert_eq!(game_state.occupying_piece(60 as u8).unwrap(), Piece::BlackKing);
    assert_eq!(game_state.occupying_piece(61 as u8).unwrap(), Piece::BlackBishop);
    assert_eq!(game_state.occupying_piece(62 as u8).unwrap(), Piece::BlackKnight);
    assert_eq!(game_state.occupying_piece(63 as u8).unwrap(), Piece::BlackRook);

    let serialized = to_fen(&game_state);
    assert_eq!(STARTING_FEN, serialized);
}

#[test]
fn test_round_trip_with_ep_and_empty_rights() {
    // En-passant target set, no castling rights left: the rights field is
    // empty and the record keeps both spaces around it.
    let fen = String::from("rnbqkbnr/pppp1ppp/8/4p3/8/8/PPPPPPPP/RNBQKBNR w  e6 1 0");
    let state = parse_fen(&fen).unwrap();
    assert_eq!(state.ep_square, Some(44));
    assert_eq!(state.castlerights, [false; 4]);
    assert_eq!(state.fullmove_clock, 1);
    assert_eq!(state.halfmove_clock, 0);
    assert_eq!(to_fen(&state), fen);
}

#[test]
fn test_field_serializers() {
    let state = parse_fen(&STARTING_FEN.to_string()).unwrap();
    assert_eq!(ser_side_to_move(&state), "w");
    assert_eq!(ser_castle_rights(&state), "KQkq");
    assert_eq!(ser_ep_square(&state), "-");
    assert_eq!(ser_fullmove_clock(&state), "0");
    assert_eq!(ser_halfmove_clock(&state), "1");

    let later = String::from("8/8/8/8/8/8/8/8 b Kq c3 4294967295 255");
    let state = parse_fen(&later).unwrap();
    assert_eq!(ser_side_to_move(&state), "b");
    assert_eq!(ser_castle_rights(&state), "Kq");
    assert_eq!(ser_ep_square(&state), "c3");
    assert_eq!(ser_fullmove_clock(&state), "4294967295");
    assert_eq!(ser_halfmove_clock(&state), "255");
    assert_eq!(to_fen(&state), later);
}

#[test]
fn test_field_parsers() {
    assert_eq!(white_to_move_from("w"), Ok(true));
    assert_eq!(white_to_move_from("b"), Ok(false));
    assert!(white_to_move_from("x").is_err());
    assert!(white_to_move_from("ww").is_err());

    assert_eq!(castlerights_from("KQkq"), [true, true, true, true]);
    assert_eq!(castlerights_from("Qk"), [false, true, true, false]);
    assert_eq!(castlerights_from(""), [false, false, false, false]);

    assert_eq!(ep_square_from("-"), Ok(None));
    assert_eq!(ep_square_from("e3"), Ok(Some(20)));
    assert_eq!(ep_square_from("a1"), Ok(Some(0)));
    assert_eq!(ep_square_from("h8"), Ok(Some(63)));
    assert!(ep_square_from("e9").is_err());
    assert!(ep_square_from("i3").is_err());
    assert!(ep_square_from("e33").is_err());
}

#[test]
fn test_parse_rejects_malformed_records() {
    // Wrong field count.
    assert!(parse_fen(&String::from("8/8/8/8/8/8/8/8 w - 0")).is_none());
    // Bad side-to-move character.
    assert!(parse_fen(&String::from("8/8/8/8/8/8/8/8 x - - 0 1")).is_none());
    // Bad en-passant field.
    assert!(parse_fen(&String::from("8/8/8/8/8/8/8/8 w - e9 0 1")).is_none());
    // Non-numeric clock.
    assert!(parse_fen(&String::from("8/8/8/8/8/8/8/8 w - - x 1")).is_none());
    // Clock out of range for its width.
    assert!(parse_fen(&String::from("8/8/8/8/8/8/8/8 w - - 1 256")).is_none());
    assert!(parse_fen(&String::from("8/8/8/8/8/8/8/8 w - - 4294967296 1")).is_none());
    // Unknown placement character.
    assert!(parse_fen(&String::from("8/8/8/8/8/8/8/x7 w - - 0 1")).is_none());
    // A rank covering too many or too few squares.
    assert!(parse_fen(&String::from("8/8/8/8/8/8/8/44P w - - 0 1")).is_none());
    assert!(parse_fen(&String::from("8/8/8/8/8/8/8/7 w - - 0 1")).is_none());
    // Too few ranks.
    assert!(parse_fen(&String::from("8/8/8/8/8/8/8 w - - 0 1")).is_none());
}

#[test]
fn test_parse_builds_empty_board() {
    let state = parse_fen(&String::from("8/8/8/8/8/8/8/8 w KQkq - 0 1")).unwrap();
    for sq in 0..64 {
        assert_eq!(state.occupying_piece(sq), None);
    }
    let empty = GameState::new_empty();
    assert_eq!(to_fen(&empty), "8/8/8/8/8/8/8/8 w KQkq - 1 0");
}
