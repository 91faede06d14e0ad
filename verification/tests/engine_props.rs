//! Scenario tests for the transition engine's guarantees: capture counting,
//! en-passant geometry, castling, promotion, clock bookkeeping, one-way
//! castling rights, and the move encoding formulas.

use bongcloud::fen::{parse_fen, to_fen};
use bongcloud::game_move::{GameMove, MoveType};
use bongcloud::game_state::{Game, GameState, Piece};
use bongcloud::move_gen::{append_knight_moves, append_pawn_double_pushes,
    append_pawn_single_pushes, gen_legal_moves};
use bongcloud::move_list::MoveList;

fn count_pieces(state: &GameState) -> usize {
    let mut count = 0;
    for sq in 0..64 {
        if state.occupying_piece(sq).is_some() {
            count += 1;
        }
    }
    count
}

#[test]
fn test_move_encoding_formula() {
    // from 12, to 28, double push (code 1): 12 << 10 | 28 << 4 | 1.
    let m = GameMove::new(12, 28, MoveType::DoublePawnPush);
    assert_eq!(m.data, 12 * 1024 + 28 * 16 + 1);
    assert_eq!(m.fromsquare(), 12);
    assert_eq!(m.tosquare(), 28);
    assert!(matches!(m.move_type(), MoveType::DoublePawnPush));
    assert!(!m.is_capture());
    assert!(!m.is_promo());

    let m = GameMove::from_val(0b101101_001010_1101);
    assert_eq!(m.fromsquare(), 45);
    assert_eq!(m.tosquare(), 10);
    assert!(matches!(m.move_type(), MoveType::BishopPromoCapture));
    assert!(m.is_capture());
    assert!(m.is_promo());
    assert_eq!(m.promo_piece(true), Some(Piece::WhiteBishop));
    assert_eq!(m.promo_piece(false), Some(Piece::BlackBishop));

    let quiet = GameMove::new(0, 63, MoveType::Quiet);
    assert_eq!(quiet.promo_piece(true), None);
    // Both spare codes decode to the null move.
    assert!(matches!(GameMove::from_val(6).move_type(), MoveType::NullMove));
    assert!(matches!(GameMove::from_val(7).move_type(), MoveType::NullMove));
}

#[test]
fn test_capture_removes_exactly_one_occupant() {
    let fen = String::from("rnbqkbnr/pppp1ppp/8/4p3/8/5N2/PPPPPPPP/RNBQKB1R w KQkq - 1 10");
    let before = parse_fen(&fen).unwrap();
    let n_before = count_pieces(&before);

    // An ordinary capture: the mover lands on the destination, the previous
    // occupant is gone, and the count drops by exactly one.
    let after = before.make(GameMove::new(21, 36, MoveType::Capture));
    assert_eq!(after.occupying_piece(36), Some(Piece::WhiteKnight));
    assert_eq!(after.occupying_piece(21), None);
    assert_eq!(count_pieces(&after), n_before - 1);

    // A quiet move keeps the count.
    let after = before.make(GameMove::new(21, 38, MoveType::Quiet));
    assert_eq!(after.occupying_piece(38), Some(Piece::WhiteKnight));
    assert_eq!(count_pieces(&after), n_before);
}

#[test]
fn test_en_passant_geometry() {
    // White captures en passant from square 36 with target square 43: the
    // black pawn one rank behind the target (square 35) is removed, and the
    // mover lands on 43.
    let mut state = GameState::new([0; 12], true, Some(43), 0, 1, [true; 4]);
    state.add_piece(Piece::WhitePawn, 36);
    state.add_piece(Piece::BlackPawn, 35);
    let after = state.make(GameMove::new(36, 43, MoveType::EpCapture));
    assert_eq!(after.occupying_piece(43), Some(Piece::WhitePawn));
    assert_eq!(after.occupying_piece(35), None);
    assert_eq!(after.occupying_piece(36), None);
}

#[test]
fn test_castling_invariants() {
    // Both of the moving side's rights fall after a castle, whatever they
    // were before, and king and rook land on the fixed squares.
    let fen = String::from("r3k2r/8/8/8/8/8/8/R3K2R w Kq - 0 1");
    let state = parse_fen(&fen).unwrap();
    let after = state.make(GameMove::new(4, 6, MoveType::KingCastle));
    assert_eq!(after.occupying_piece(6), Some(Piece::WhiteKing));
    assert_eq!(after.occupying_piece(5), Some(Piece::WhiteRook));
    assert_eq!(after.occupying_piece(4), None);
    assert_eq!(after.occupying_piece(7), None);
    assert_eq!(after.castlerights, [false, false, false, true]);

    let fen = String::from("r3k2r/8/8/8/8/8/8/R3K2R b Kq - 0 1");
    let state = parse_fen(&fen).unwrap();
    let after = state.make(GameMove::new(60, 58, MoveType::QueenCastle));
    assert_eq!(after.occupying_piece(58), Some(Piece::BlackKing));
    assert_eq!(after.occupying_piece(59), Some(Piece::BlackRook));
    assert_eq!(after.castlerights, [true, false, false, false]);
}

#[test]
fn test_promotion_replaces_pawn() {
    let fen = String::from("8/5P2/k7/8/8/K7/8/8 w - - 0 1");
    let state = parse_fen(&fen).unwrap();
    let after = state.make(GameMove::new(53, 61, MoveType::QueenPromo));
    assert_eq!(after.occupying_piece(61), Some(Piece::WhiteQueen));
    let after = state.make(GameMove::new(53, 61, MoveType::RookPromo));
    assert_eq!(after.occupying_piece(61), Some(Piece::WhiteRook));
}

#[test]
fn test_clock_bookkeeping() {
    let fen = String::from("rnbqkbnr/pppp1ppp/8/4p3/8/5N2/PPPPPPPP/RNBQKB1R w KQkq - 7 10");
    let state = parse_fen(&fen).unwrap();
    assert_eq!(state.halfmove_clock, 10);
    assert_eq!(state.fullmove_clock, 7);

    // A quiet piece move increments the half-move clock; white moving does
    // not advance the full-move counter.
    let after = state.make(GameMove::new(21, 38, MoveType::Quiet));
    assert_eq!(after.halfmove_clock, 11);
    assert_eq!(after.fullmove_clock, 7);

    // A capture resets the half-move clock.
    let after = state.make(GameMove::new(21, 36, MoveType::Capture));
    assert_eq!(after.halfmove_clock, 0);

    // A pawn move resets it too.
    let after = state.make(GameMove::new(12, 20, MoveType::Quiet));
    assert_eq!(after.halfmove_clock, 0);

    // The full-move counter advances exactly after black's move.
    let black = after;
    assert!(!black.white_to_move);
    let after_black = black.make(GameMove::new(51, 43, MoveType::Quiet));
    assert_eq!(after_black.fullmove_clock, 8);
}

#[test]
fn test_castling_rights_one_way() {
    // Moving a rook off its home square clears that corner's right; nothing
    // later brings it back.
    let fen = String::from("r3k2r/8/8/8/8/8/8/R3K2R w KQkq - 0 1");
    let state = parse_fen(&fen).unwrap();
    let after = state.make(GameMove::new(0, 16, MoveType::Quiet));
    assert_eq!(after.castlerights, [true, false, true, true]);
    // The black kingside rook leaves home too: its right falls as well.
    let back = after.make(GameMove::new(63, 55, MoveType::Quiet));
    assert_eq!(back.castlerights, [true, false, false, true]);
    // The rooks return home: the rights stay lost.
    let back = back.make(GameMove::new(16, 0, MoveType::Quiet));
    assert_eq!(back.castlerights, [true, false, false, true]);
    let more = back.make(GameMove::new(55, 63, MoveType::Quiet));
    assert_eq!(more.castlerights, [true, false, false, true]);
}

#[test]
fn test_game_history_stack() {
    let state = parse_fen(&String::from(
        "rnbqkbnr/pppppppp/8/8/8/8/PPPPPPPP/RNBQKBNR w KQkq - 0 1",
    ))
    .unwrap();
    let initial = to_fen(&state);
    let mut game = Game::new(state);
    game.make(GameMove::new(12, 28, MoveType::DoublePawnPush));
    let middle = to_fen(&game.current_state());
    assert_ne!(initial, middle);
    game.make(GameMove::new(52, 36, MoveType::DoublePawnPush));
    game.unmake();
    assert_eq!(to_fen(&game.current_state()), middle);
    game.unmake();
    assert_eq!(to_fen(&game.current_state()), initial);
}

#[test]
fn test_move_list_stack() {
    let mut list = MoveList::new();
    assert!(list.peek().is_none());
    assert!(list.pop().is_none());
    let a = GameMove::new(0, 1, MoveType::Quiet);
    let b = GameMove::new(2, 3, MoveType::Capture);
    list.push(a);
    list.push(b);
    assert_eq!(list.peek().map(|m| m.data), Some(b.data));
    assert_eq!(list.pop().map(|m| m.data), Some(b.data));
    assert_eq!(list.pop().map(|m| m.data), Some(a.data));
    assert!(list.pop().is_none());
}

#[test]
fn test_knight_move_generation() {
    let state = GameState::new_empty();
    assert_eq!(gen_legal_moves(state).pop().map(|m| m.data), None);

    // A lone knight in the corner: two quiet moves.
    let mut list = MoveList::new();
    append_knight_moves(&mut list, 1 << 0, 1 << 0, 0);
    let mut targets = Vec::new();
    while let Some(m) = list.pop() {
        assert_eq!(m.fromsquare(), 0);
        assert!(matches!(m.move_type(), MoveType::Quiet));
        targets.push(m.tosquare());
    }
    targets.sort();
    assert_eq!(targets, vec![10, 17]);

    // With an enemy piece on one destination: one quiet move, one capture.
    let mut list = MoveList::new();
    append_knight_moves(&mut list, 1 << 0, 1 << 0, 1 << 10);
    let mut quiet = Vec::new();
    let mut captures = Vec::new();
    while let Some(m) = list.pop() {
        if matches!(m.move_type(), MoveType::Capture) {
            captures.push(m.tosquare());
        } else {
            quiet.push(m.tosquare());
        }
    }
    assert_eq!(quiet, vec![17]);
    assert_eq!(captures, vec![10]);
}

#[test]
fn test_pawn_push_generation() {
    // A white pawn on square 8 pushes to 16 when it is free.
    let mut list = MoveList::new();
    append_pawn_single_pushes(&mut list, 1 << 8, 1 << 8, true);
    let m = list.pop().unwrap();
    assert_eq!(m.fromsquare(), 8);
    assert_eq!(m.tosquare(), 16);
    assert!(list.pop().is_none());

    // Blocked destination: no move.
    let mut list = MoveList::new();
    append_pawn_single_pushes(&mut list, 1 << 8, (1 << 8) | (1 << 16), true);
    assert!(list.pop().is_none());

    // A black pawn on square 52 pushes to 44.
    let mut list = MoveList::new();
    append_pawn_single_pushes(&mut list, 1 << 52, 1 << 52, false);
    let m = list.pop().unwrap();
    assert_eq!(m.fromsquare(), 52);
    assert_eq!(m.tosquare(), 44);

    // A white pawn on its home rank double-pushes two ranks up.
    let mut list = MoveList::new();
    append_pawn_double_pushes(&mut list, 1 << 12, 1 << 12, true);
    let m = list.pop().unwrap();
    assert_eq!(m.fromsquare(), 12);
    assert_eq!(m.tosquare(), 28);
    assert!(matches!(m.move_type(), MoveType::DoublePawnPush));

    // A pawn off its home rank gives no double push.
    let mut list = MoveList::new();
    append_pawn_double_pushes(&mut list, 1 << 20, 1 << 20, true);
    assert!(list.pop().is_none());

    // A black pawn on its home rank double-pushes two ranks down.
    let mut list = MoveList::new();
    append_pawn_double_pushes(&mut list, 1 << 52, 1 << 52, false);
    let m = list.pop().unwrap();
    assert_eq!(m.fromsquare(), 52);
    assert_eq!(m.tosquare(), 36);
}
