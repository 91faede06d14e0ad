//! Board state: the twelve per-piece occupancy words, the square-to-piece
//! reverse index kept consistent with them, game metadata, the make-move
//! transition engine, and the bounded history stack.

use vstd::prelude::*;
use crate::bits::utils::{bit64, lemma_bit64_basics, lemma_u64_bit_ext};
use crate::game_move::{GameMove, MoveType};

verus! {

/// A bitboard is a 64-bit unsigned integer which gives piece occupancy, one
/// bit per square.
pub type BitBoard = u64;

/// Index for a square, 0 to 63, little-endian rank-file mapping.
pub type Square = u8;

/// Piece kind; also the index into the occupancy-word array. `Null` is the
/// sentinel the reverse index uses for an empty square and never denotes a
/// real occupant.
#[derive(Copy, Clone, Debug, PartialEq, Eq, Structural)]
pub enum Piece {
    WhitePawn,
    WhiteBishop,
    WhiteKnight,
    WhiteRook,
    WhiteQueen,
    WhiteKing,
    BlackPawn,
    BlackBishop,
    BlackKnight,
    BlackRook,
    BlackQueen,
    BlackKing,
    Null,
}

/// The occupancy-word index of a piece kind (12 for the `Null` sentinel,
/// which owns no occupancy word).
pub open spec fn piece_idx(p: Piece) -> int {
    match p {
        Piece::WhitePawn => 0,
        Piece::WhiteBishop => 1,
        Piece::WhiteKnight => 2,
        Piece::WhiteRook => 3,
        Piece::WhiteQueen => 4,
        Piece::WhiteKing => 5,
        Piece::BlackPawn => 6,
        Piece::BlackBishop => 7,
        Piece::BlackKnight => 8,
        Piece::BlackRook => 9,
        Piece::BlackQueen => 10,
        Piece::BlackKing => 11,
        Piece::Null => 12,
    }
}

/// Executable counterpart of [`piece_idx`].
pub fn piece_index(p: Piece) -> (i: usize)
    ensures
        i == piece_idx(p),
{
    match p {
        Piece::WhitePawn => 0,
        Piece::WhiteBishop => 1,
        Piece::WhiteKnight => 2,
        Piece::WhiteRook => 3,
        Piece::WhiteQueen => 4,
        Piece::WhiteKing => 5,
        Piece::BlackPawn => 6,
        Piece::BlackBishop => 7,
        Piece::BlackKnight => 8,
        Piece::BlackRook => 9,
        Piece::BlackQueen => 10,
        Piece::BlackKing => 11,
        Piece::Null => 12,
    }
}

/// The contribution of square `s` to occupancy word `k`: a single bit when
/// the board holds piece kind `k` on `s`, else zero.
pub open spec fn bb_sq_term(board: Seq<Piece>, k: int, s: int) -> u64 {
    if piece_idx(board[s]) == k {
        1u64 << (s as u64)
    } else {
        0u64
    }
}

/// The occupancy word of piece kind `k` restricted to squares below `n`.
pub open spec fn bb_rec(board: Seq<Piece>, k: int, n: int) -> u64
    decreases n,
{
    if n <= 0 {
        0u64
    } else {
        bb_rec(board, k, n - 1) | bb_sq_term(board, k, n - 1)
    }
}

/// The occupancy word that a 64-square board induces for piece kind `k`:
/// bit `s` is set exactly when square `s` holds that piece kind.
pub open spec fn bb_of(board: Seq<Piece>, k: int) -> u64 {
    bb_rec(board, k, 64)
}

proof fn lemma_bb_rec_bit(board: Seq<Piece>, k: int, n: int, t: u64)
    requires
        0 <= n <= 64,
        t < 64,
    ensures
        bit64(bb_rec(board, k, n), t) <==> (t < n && piece_idx(board[t as int]) == k),
    decreases n,
{
    if n <= 0 {
        lemma_bit64_basics(0, 0, 0, t);
    } else {
        lemma_bb_rec_bit(board, k, n - 1, t);
        let prev = bb_rec(board, k, n - 1);
        let term = bb_sq_term(board, k, n - 1);
        lemma_bit64_basics(prev, term, (n - 1) as u64, t);
        if piece_idx(board[n - 1]) == k {
            assert(bit64(term, t) <==> t == (n - 1) as u64);
        } else {
            assert(!bit64(term, t));
        }
    }
}

/// Bit `t` of the occupancy word of kind `k` is set exactly when square `t`
/// holds a piece of kind `k`.
pub proof fn lemma_bb_of_bit(board: Seq<Piece>, k: int, t: u64)
    requires
        t < 64,
    ensures
        bit64(bb_of(board, k), t) <==> piece_idx(board[t as int]) == k,
{
    lemma_bb_rec_bit(board, k, 64, t);
}

/// Placing piece `p` on square `s` (empty, or already holding `p`) sets
/// bit `s` in `p`'s occupancy word and leaves every other word unchanged.
pub proof fn lemma_bb_of_place(board: Seq<Piece>, s: int, p: Piece)
    requires
        board.len() == 64,
        0 <= s < 64,
        p != Piece::Null,
        board[s] == Piece::Null || board[s] == p,
    ensures
        forall|k: int|
            0 <= k < 12 ==> #[trigger] bb_of(board.update(s, p), k) == if k == piece_idx(p) {
                bb_of(board, k) | (1u64 << (s as u64))
            } else {
                bb_of(board, k)
            },
{
    let b2 = board.update(s, p);
    assert forall|k: int| 0 <= k < 12 implies #[trigger] bb_of(b2, k) == if k == piece_idx(p) {
        bb_of(board, k) | (1u64 << (s as u64))
    } else {
        bb_of(board, k)
    } by {
        if k == piece_idx(p) {
            let target = bb_of(board, k) | (1u64 << (s as u64));
            assert forall|t: u64| t < 64 implies (bit64(bb_of(b2, k), t) <==> bit64(
                target,
                t,
            )) by {
                lemma_bb_rec_bit(b2, k, 64, t);
                lemma_bb_rec_bit(board, k, 64, t);
                lemma_bit64_basics(bb_of(board, k), 1u64 << (s as u64), s as u64, t);
            }
            lemma_u64_bit_ext(bb_of(b2, k), target);
        } else {
            assert forall|t: u64| t < 64 implies (bit64(bb_of(b2, k), t) <==> bit64(
                bb_of(board, k),
                t,
            )) by {
                lemma_bb_rec_bit(b2, k, 64, t);
                lemma_bb_rec_bit(board, k, 64, t);
            }
            lemma_u64_bit_ext(bb_of(b2, k), bb_of(board, k));
        }
    }
}

/// Emptying square `s` clears bit `s` in the occupancy word of the piece
/// kind that held it and leaves every other word unchanged.
pub proof fn lemma_bb_of_clear(board: Seq<Piece>, s: int)
    requires
        board.len() == 64,
        0 <= s < 64,
    ensures
        forall|k: int|
            0 <= k < 12 ==> #[trigger] bb_of(board.update(s, Piece::Null), k) == if k == piece_idx(
                board[s],
            ) {
                bb_of(board, k) & !(1u64 << (s as u64))
            } else {
                bb_of(board, k)
            },
{
    let b2 = board.update(s, Piece::Null);
    assert forall|k: int| 0 <= k < 12 implies #[trigger] bb_of(b2, k) == if k == piece_idx(
        board[s],
    ) {
        bb_of(board, k) & !(1u64 << (s as u64))
    } else {
        bb_of(board, k)
    } by {
        if k == piece_idx(board[s]) {
            let target = bb_of(board, k) & !(1u64 << (s as u64));
            assert forall|t: u64| t < 64 implies (bit64(bb_of(b2, k), t) <==> bit64(
                target,
                t,
            )) by {
                lemma_bb_rec_bit(b2, k, 64, t);
                lemma_bb_rec_bit(board, k, 64, t);
                lemma_bit64_basics(bb_of(board, k), 0, s as u64, t);
            }
            lemma_u64_bit_ext(bb_of(b2, k), target);
        } else {
            assert forall|t: u64| t < 64 implies (bit64(bb_of(b2, k), t) <==> bit64(
                bb_of(board, k),
                t,
            )) by {
                lemma_bb_rec_bit(b2, k, 64, t);
                lemma_bb_rec_bit(board, k, 64, t);
            }
            lemma_u64_bit_ext(bb_of(b2, k), bb_of(board, k));
        }
    }
}

/// A board with no pieces induces twelve all-zero occupancy words.
pub proof fn lemma_bb_of_empty(board: Seq<Piece>)
    requires
        board.len() == 64,
        forall|s: int| 0 <= s < 64 ==> board[s] == Piece::Null,
    ensures
        forall|k: int| 0 <= k < 12 ==> #[trigger] bb_of(board, k) == 0,
{
    assert forall|k: int| 0 <= k < 12 implies #[trigger] bb_of(board, k) == 0 by {
        assert forall|t: u64| t < 64 implies (bit64(bb_of(board, k), t) <==> bit64(0u64, t)) by {
            lemma_bb_rec_bit(board, k, 64, t);
            lemma_bit64_basics(0, 0, 0, t);
        }
        lemma_u64_bit_ext(bb_of(board, k), 0);
    }
}

/// Data structure to map from square number to occupying piece.
#[derive(Copy, Clone)]
pub struct PieceBitBoards {
    pub map: [Piece; 64],
}

impl PieceBitBoards {
    /// The reverse index as a 64-entry sequence (with `Null` for empty).
    pub open spec fn entries(self) -> Seq<Piece> {
        self.map@
    }

    /// Create an empty square-to-piece map.
    pub fn new() -> (r: Self)
        ensures
            r.entries().len() == 64,
            forall|s: int| 0 <= s < 64 ==> r.entries()[s] == Piece::Null,
    {
        PieceBitBoards { map: [Piece::Null; 64] }
    }

    /// Get the piece at the given square, or none if the square is empty.
    pub fn get(&self, sq: Square) -> (r: Option<Piece>)
        requires
            sq < 64,
        ensures
            r == if self.entries()[sq as int] == Piece::Null {
                None::<Piece>
            } else {
                Some(self.entries()[sq as int])
            },
    {
        match self.map[sq as usize] {
            Piece::Null => None,
            pi => Some(pi),
        }
    }

    /// Remove the piece at the given square from the map and return it, or
    /// none if the square was empty.
    pub fn remove(&mut self, sq: Square) -> (r: Option<Piece>)
        requires
            sq < 64,
        ensures
            final(self).entries() == old(self).entries().update(sq as int, Piece::Null),
            r == if old(self).entries()[sq as int] == Piece::Null {
                None::<Piece>
            } else {
                Some(old(self).entries()[sq as int])
            },
    {
        let removed = self.get(sq);
        self.map[sq as usize] = Piece::Null;
        removed
    }

    /// Put the given piece at the given square in the map.
    pub fn put(&mut self, sq: Square, pi: Piece)
        requires
            sq < 64,
        ensures
            final(self).entries() == old(self).entries().update(sq as int, pi),
    {
        self.map[sq as usize] = pi;
    }
}

/// Represents the state of the board as well as game metadata (en-passant
/// square, castle rights, clocks, and player to move).
#[derive(Copy, Clone)]
pub struct GameState {
    pub bbs: [BitBoard; 12],
    pub white_to_move: bool,
    pub ep_square: Option<Square>,
    pub halfmove_clock: u8,
    pub fullmove_clock: u32,
    /// White kingside, white queenside, black kingside, black queenside.
    pub castlerights: [bool; 4],
    pub occupancy: PieceBitBoards,
}

impl GameState {
    /// The board as a 64-entry sequence of occupants (`Null` for empty).
    pub open spec fn board(self) -> Seq<Piece> {
        self.occupancy.entries()
    }

    /// Well-formedness: every occupancy word agrees with the reverse index,
    /// and the en-passant target, when present, is a real square.
    pub open spec fn wf(self) -> bool {
        &&& forall|k: int| 0 <= k < 12 ==> self.bbs@[k] == #[trigger] bb_of(self.board(), k)
        &&& (self.ep_square matches Some(e) ==> e < 64)
    }

    /// Returns a new game state with empty occupancy, white to move, no
    /// en-passant square, zero half-move clock, a full-move clock of 1, and
    /// full castle rights.
    pub fn new_empty() -> (r: Self)
        ensures
            r.wf(),
            forall|s: int| 0 <= s < 64 ==> r.board()[s] == Piece::Null,
            r.white_to_move,
            r.ep_square is None,
            r.halfmove_clock == 0,
            r.fullmove_clock == 1,
            forall|i: int| 0 <= i < 4 ==> r.castlerights@[i],
    {
        let r = GameState {
            bbs: [0; 12],
            white_to_move: true,
            ep_square: None,
            halfmove_clock: 0,
            fullmove_clock: 1,
            castlerights: [true; 4],
            occupancy: PieceBitBoards::new(),
        };
        proof {
            lemma_bb_of_empty(r.board());
        }
        r
    }

    /// Make a new game state from the given metadata. The reverse index
    /// starts empty, so the given occupancy words must all be empty too;
    /// pieces are then added through `add_piece`.
    pub fn new(
        bbs: [BitBoard; 12],
        white_to_move: bool,
        ep_square: Option<Square>,
        halfmove_clock: u8,
        fullmove_clock: u32,
        castlerights: [bool; 4],
    ) -> (r: Self)
        requires
            forall|k: int| 0 <= k < 12 ==> bbs@[k] == 0,
            ep_square matches Some(e) ==> e < 64,
        ensures
            r.wf(),
            forall|s: int| 0 <= s < 64 ==> r.board()[s] == Piece::Null,
            r.bbs == bbs,
            r.white_to_move == white_to_move,
            r.ep_square == ep_square,
            r.halfmove_clock == halfmove_clock,
            r.fullmove_clock == fullmove_clock,
            r.castlerights == castlerights,
    {
        let r = GameState {
            bbs,
            white_to_move,
            ep_square,
            halfmove_clock,
            fullmove_clock,
            castlerights,
            occupancy: PieceBitBoards::new(),
        };
        proof {
            lemma_bb_of_empty(r.board());
        }
        r
    }

    /// Find the piece occupying the given square, or none if the square is
    /// empty.
    pub fn occupying_piece(&self, sq: Square) -> (r: Option<Piece>)
        requires
            sq < 64,
        ensures
            r == if self.board()[sq as int] == Piece::Null {
                None::<Piece>
            } else {
                Some(self.board()[sq as int])
            },
    {
        self.occupancy.get(sq)
    }

    /// Set the given piece on the given square, updating both the reverse
    /// index and the piece's occupancy word. The square must be empty (or
    /// already hold the same piece): placing over a different occupant would
    /// break the occupancy invariant.
    pub fn add_piece(&mut self, piece: Piece, sq: Square)
        requires
            old(self).wf(),
            sq < 64,
            piece != Piece::Null,
            old(self).board()[sq as int] == Piece::Null || old(self).board()[sq as int] == piece,
        ensures
            final(self).wf(),
            final(self).board() == old(self).board().update(sq as int, piece),
            final(self).white_to_move == old(self).white_to_move,
            final(self).ep_square == old(self).ep_square,
            final(self).halfmove_clock == old(self).halfmove_clock,
            final(self).fullmove_clock == old(self).fullmove_clock,
            final(self).castlerights == old(self).castlerights,
    {
        proof {
            lemma_bb_of_place(self.board(), sq as int, piece);
        }
        self.occupancy.put(sq, piece);
        let i = piece_index(piece);
        self.bbs[i] = self.bbs[i] | (1u64 << sq);
    }

    /// Remove the piece at the given square, if one exists, updating both
    /// the reverse index and the piece's occupancy word. Returns the piece
    /// which was removed, or none if the square was empty.
    pub fn remove_piece(&mut self, sq: Square) -> (r: Option<Piece>)
        requires
            old(self).wf(),
            sq < 64,
        ensures
            final(self).wf(),
            final(self).board() == old(self).board().update(sq as int, Piece::Null),
            r == if old(self).board()[sq as int] == Piece::Null {
                None::<Piece>
            } else {
                Some(old(self).board()[sq as int])
            },
            final(self).white_to_move == old(self).white_to_move,
            final(self).ep_square == old(self).ep_square,
            final(self).halfmove_clock == old(self).halfmove_clock,
            final(self).fullmove_clock == old(self).fullmove_clock,
            final(self).castlerights == old(self).castlerights,
    {
        match self.occupancy.get(sq) {
            None => {
                proof {
                    assert(self.board().update(sq as int, Piece::Null) =~= self.board());
                }
                None
            },
            Some(piece) => {
                proof {
                    lemma_bb_of_clear(self.board(), sq as int);
                }
                let res = self.occupancy.remove(sq);
                let i = piece_index(piece);
                self.bbs[i] = self.bbs[i] & !(1u64 << sq);
                res
            },
        }
    }

    /// Promote the piece at the given square to `new_piece`: remove the old
    /// occupant (if any), then place the new piece there.
    pub fn promote_piece(&mut self, sq: Square, new_piece: Piece)
        requires
            old(self).wf(),
            sq < 64,
            new_piece != Piece::Null,
        ensures
            final(self).wf(),
            final(self).board() == old(self).board().update(sq as int, new_piece),
            final(self).white_to_move == old(self).white_to_move,
            final(self).ep_square == old(self).ep_square,
            final(self).halfmove_clock == old(self).halfmove_clock,
            final(self).fullmove_clock == old(self).fullmove_clock,
            final(self).castlerights == old(self).castlerights,
    {
        self.remove_piece(sq);
        self.add_piece(new_piece, sq);
        proof {
            assert(old(self).board().update(sq as int, Piece::Null).update(sq as int, new_piece)
                =~= old(self).board().update(sq as int, new_piece));
        }
    }
}

/// Whether the move is a castle, to either side.
pub open spec fn is_castle(m: GameMove) -> bool {
    m.kind() == MoveType::KingCastle || m.kind() == MoveType::QueenCastle
}

/// The king's home square for the given side.
pub open spec fn castle_king_from(white: bool) -> u8 {
    if white {
        4
    } else {
        60
    }
}

/// The king's post-castle square, by castle direction and side.
pub open spec fn castle_king_to(kingside: bool, white: bool) -> u8 {
    if kingside {
        if white {
            6
        } else {
            62
        }
    } else {
        if white {
            2
        } else {
            58
        }
    }
}

/// The castling rook's home square, by castle direction and side.
pub open spec fn castle_rook_from(kingside: bool, white: bool) -> u8 {
    if kingside {
        if white {
            7
        } else {
            63
        }
    } else {
        if white {
            0
        } else {
            56
        }
    }
}

/// The castling rook's post-castle square, by castle direction and side.
pub open spec fn castle_rook_to(kingside: bool, white: bool) -> u8 {
    if kingside {
        if white {
            5
        } else {
            61
        }
    } else {
        if white {
            3
        } else {
            59
        }
    }
}

/// The square whose occupant a capture move removes: the destination square,
/// except for an en-passant capture, where it is the square of the pawn that
/// just double-pushed past the en-passant target (one rank behind the target
/// from the capturing side's view).
pub open spec fn capture_square(white: bool, ep_square: Option<u8>, m: GameMove) -> int {
    if m.kind() == MoveType::EpCapture {
        if white {
            ep_square.unwrap() - 8
        } else {
            ep_square.unwrap() + 8
        }
    } else {
        m.to_sq() as int
    }
}

/// Whether applying `m` resets the half-move clock: any capture or pawn move
/// does; castling never does.
pub open spec fn resets_halfmove(pre: GameState, m: GameMove) -> bool {
    let moving = pre.board()[m.from_sq() as int];
    &&& !is_castle(m)
    &&& (m.spec_is_capture() || moving == Piece::WhitePawn || moving == Piece::BlackPawn)
}

/// The board after applying `m` to `pre`.
pub open spec fn board_after(pre: GameState, m: GameMove) -> Seq<Piece> {
    let b = pre.board();
    let w = pre.white_to_move;
    if is_castle(m) {
        let kingside = m.kind() == MoveType::KingCastle;
        let king = if w {
            Piece::WhiteKing
        } else {
            Piece::BlackKing
        };
        let rook = if w {
            Piece::WhiteRook
        } else {
            Piece::BlackRook
        };
        b.update(castle_king_from(w) as int, Piece::Null).update(
            castle_king_to(kingside, w) as int,
            king,
        ).update(castle_rook_from(kingside, w) as int, Piece::Null).update(
            castle_rook_to(kingside, w) as int,
            rook,
        )
    } else {
        let moving = b[m.from_sq() as int];
        let b1 = if m.spec_is_capture() {
            b.update(capture_square(w, pre.ep_square, m), Piece::Null)
        } else {
            b
        };
        let b2 = b1.update(m.from_sq() as int, Piece::Null).update(m.to_sq() as int, moving);
        if m.spec_is_promo() {
            b2.update(m.to_sq() as int, m.spec_promo_piece(w).unwrap())
        } else {
            b2
        }
    }
}

/// The en-passant target after applying `m`: the square behind the pawn's
/// destination on a double push, none on any other non-castling move, and
/// unchanged by a castle.
pub open spec fn ep_after(pre: GameState, m: GameMove) -> Option<u8> {
    if is_castle(m) {
        pre.ep_square
    } else if m.kind() == MoveType::DoublePawnPush {
        if pre.white_to_move {
            Some((m.to_sq() - 8) as u8)
        } else {
            Some((m.to_sq() + 8) as u8)
        }
    } else {
        None
    }
}

/// The castling rights after applying `m`: a castle clears both of the
/// moving side's flags; a rook moving off its home square clears the flag of
/// that corner; nothing else changes them. Rights order: white kingside,
/// white queenside, black kingside, black queenside.
pub open spec fn rights_after(pre: GameState, m: GameMove) -> Seq<bool> {
    let r = pre.castlerights@;
    if is_castle(m) {
        if pre.white_to_move {
            r.update(0, false).update(1, false)
        } else {
            r.update(2, false).update(3, false)
        }
    } else {
        let moving = pre.board()[m.from_sq() as int];
        if moving == Piece::WhiteRook && m.from_sq() == 0 {
            r.update(1, false)
        } else if moving == Piece::WhiteRook && m.from_sq() == 7 {
            r.update(0, false)
        } else if moving == Piece::BlackRook && m.from_sq() == 56 {
            r.update(3, false)
        } else if moving == Piece::BlackRook && m.from_sq() == 63 {
            r.update(2, false)
        } else {
            r
        }
    }
}

/// The precondition of `GameState::make`: the state is well formed, the
/// move is legal-shaped (the expected piece stands on the source square and
/// the destination can receive the mover), and the clocks cannot overflow.
pub open spec fn make_ok(pre: GameState, m: GameMove) -> bool {
    let w = pre.white_to_move;
    &&& pre.wf()
    &&& (!w ==> pre.fullmove_clock < u32::MAX)
    &&& (!resets_halfmove(pre, m) ==> pre.halfmove_clock < 255)
    &&& if is_castle(m) {
        let kingside = m.kind() == MoveType::KingCastle;
        let king = if w {
            Piece::WhiteKing
        } else {
            Piece::BlackKing
        };
        let rook = if w {
            Piece::WhiteRook
        } else {
            Piece::BlackRook
        };
        &&& pre.board()[castle_king_from(w) as int] == king
        &&& pre.board()[castle_rook_from(kingside, w) as int] == rook
        &&& pre.board()[castle_king_to(kingside, w) as int] == Piece::Null
        &&& pre.board()[castle_rook_to(kingside, w) as int] == Piece::Null
    } else {
        &&& pre.board()[m.from_sq() as int] != Piece::Null
        &&& (m.kind() == MoveType::EpCapture ==> pre.ep_square is Some && (w
            ==> pre.ep_square.unwrap() >= 8) && (!w ==> pre.ep_square.unwrap() < 56))
        &&& (m.kind() == MoveType::DoublePawnPush ==> (w ==> m.to_sq() >= 8) && (!w ==> m.to_sq()
            < 56))
        &&& ((m.spec_is_capture() && capture_square(w, pre.ep_square, m) == m.to_sq() as int)
            || pre.board()[m.to_sq() as int] == Piece::Null || m.to_sq() == m.from_sq())
    }
}

/// What `GameState::make` computes: how every field of the post-state
/// relates to the pre-state and the move.
pub open spec fn make_rel(pre: GameState, m: GameMove, post: GameState) -> bool {
    &&& post.board() == board_after(pre, m)
    &&& post.white_to_move == !pre.white_to_move
    &&& post.ep_square == ep_after(pre, m)
    &&& post.halfmove_clock == if resets_halfmove(pre, m) {
        0int
    } else {
        pre.halfmove_clock + 1
    }
    &&& post.fullmove_clock == pre.fullmove_clock + if pre.white_to_move {
        0int
    } else {
        1int
    }
    &&& post.castlerights@ == rights_after(pre, m)
}

impl GameState {
    /// Apply the given move to this game state and return the state after
    /// the move: relocates the mover (and the castling rook), removes a
    /// captured occupant, applies a promotion, and updates the en-passant
    /// target, the side to move, the clocks, and the castling rights.
    pub fn make(&self, game_move: GameMove) -> (r: Self)
        requires
            make_ok(*self, game_move),
        ensures
            r.wf(),
            make_rel(*self, game_move, r),
    {
        let mut new_state = *self;
        let mut reset_halfmove_clock = false;

        let move_type = game_move.move_type();
        let castle_color_flag: usize = if self.white_to_move {
            0
        } else {
            2
        };

        // Handle castling: relocate king and rook, clear the moving side's
        // rights, and bump the clocks; nothing else applies.
        if move_type == MoveType::QueenCastle || move_type == MoveType::KingCastle {
            let (king_from_sq, king): (Square, Piece) = if self.white_to_move {
                (4, Piece::WhiteKing)
            } else {
                (60, Piece::BlackKing)
            };
            let king_to_sq: Square = match (move_type, self.white_to_move) {
                (MoveType::QueenCastle, true) => 2,
                (MoveType::KingCastle, true) => 6,
                (MoveType::QueenCastle, false) => 58,
                (MoveType::KingCastle, false) => 62,
                _ => 0,
            };
            new_state.remove_piece(king_from_sq);
            new_state.add_piece(king, king_to_sq);

            let rook = if self.white_to_move {
                Piece::WhiteRook
            } else {
                Piece::BlackRook
            };
            let rook_from_sq: Square = match (move_type, self.white_to_move) {
                (MoveType::QueenCastle, true) => 0,
                (MoveType::KingCastle, true) => 7,
                (MoveType::QueenCastle, false) => 56,
                (MoveType::KingCastle, false) => 63,
                _ => 0,
            };
            let rook_to_sq: Square = match (move_type, self.white_to_move) {
                (MoveType::QueenCastle, true) => 3,
                (MoveType::KingCastle, true) => 5,
                (MoveType::QueenCastle, false) => 59,
                (MoveType::KingCastle, false) => 61,
                _ => 0,
            };
            new_state.remove_piece(rook_from_sq);
            new_state.add_piece(rook, rook_to_sq);

            new_state.castlerights[castle_color_flag] = false;
            new_state.castlerights[castle_color_flag + 1] = false;

            new_state.white_to_move = !self.white_to_move;
            if !self.white_to_move {
                new_state.fullmove_clock = new_state.fullmove_clock + 1;
            }
            new_state.halfmove_clock = self.halfmove_clock + 1;

            return new_state;
        }
        let fromsquare = game_move.fromsquare();
        let tosquare = game_move.tosquare();
        let moving = match self.occupying_piece(fromsquare) {
            Some(p) => p,
            None => unreached(),
        };

        // On a capture, find the captured square (the destination, or the
        // double-pushed pawn's square on an en-passant capture) and remove
        // the occupant there.
        if game_move.is_capture() {
            let mut cap_sq = tosquare;
            if move_type == MoveType::EpCapture {
                let ep = match self.ep_square {
                    Some(e) => e,
                    None => unreached(),
                };
                cap_sq = if self.white_to_move {
                    ep - 8
                } else {
                    ep + 8
                };
            }
            new_state.remove_piece(cap_sq);
            reset_halfmove_clock = true;
        }
        // Move the actual piece.
        new_state.remove_piece(fromsquare);
        new_state.add_piece(moving, tosquare);

        // The half-move clock also resets when a pawn was moved.
        reset_halfmove_clock = reset_halfmove_clock || (moving == Piece::WhitePawn || moving
            == Piece::BlackPawn);

        // Promote the moved piece, if necessary.
        if game_move.is_promo() {
            let promo_piece = match game_move.promo_piece(self.white_to_move) {
                Some(p) => p,
                None => unreached(),
            };
            new_state.promote_piece(tosquare, promo_piece);
        }
        // Update en-passant square, side to move, and clocks.
        new_state.ep_square = if move_type != MoveType::DoublePawnPush {
            None
        } else {
            if self.white_to_move {
                Some(tosquare - 8)
            } else {
                Some(tosquare + 8)
            }
        };
        new_state.white_to_move = !self.white_to_move;
        if !self.white_to_move {
            new_state.fullmove_clock = new_state.fullmove_clock + 1;
        }
        new_state.halfmove_clock = if reset_halfmove_clock {
            0
        } else {
            self.halfmove_clock + 1
        };

        // A rook leaving its home square forfeits that corner's right.
        if moving == Piece::WhiteRook && fromsquare == 0 {
            new_state.castlerights[1] = false;
        } else if moving == Piece::WhiteRook && fromsquare == 7 {
            new_state.castlerights[0] = false;
        } else if moving == Piece::BlackRook && fromsquare == 56 {
            new_state.castlerights[3] = false;
        } else if moving == Piece::BlackRook && fromsquare == 63 {
            new_state.castlerights[2] = false;
        }
        new_state
    }
}

/// The two encodings of occupancy agree in a well-formed state: bit `t` of
/// occupancy word `k` is set exactly when the reverse index holds piece kind
/// `k` on square `t`.
pub proof fn lemma_occupancy_agreement(gs: GameState, k: int, t: u64)
    requires
        gs.wf(),
        0 <= k < 12,
        t < 64,
    ensures
        bit64(gs.bbs@[k], t) <==> piece_idx(gs.board()[t as int]) == k,
{
    lemma_bb_of_bit(gs.board(), k, t);
}

/// The number of occupied squares below square `n`.
pub open spec fn count_rec(board: Seq<Piece>, n: int) -> int
    decreases n,
{
    if n <= 0 {
        0
    } else {
        count_rec(board, n - 1) + if board[n - 1] == Piece::Null {
            0int
        } else {
            1int
        }
    }
}

/// The total number of occupied squares of a 64-square board.
pub open spec fn count_pieces(board: Seq<Piece>) -> int {
    count_rec(board, 64)
}

proof fn lemma_count_update(board: Seq<Piece>, s: int, p: Piece, n: int)
    requires
        board.len() == 64,
        0 <= s < 64,
        0 <= n <= 64,
    ensures
        count_rec(board.update(s, p), n) == count_rec(board, n) + if s < n {
            (if p == Piece::Null {
                0int
            } else {
                1int
            }) - (if board[s] == Piece::Null {
                0int
            } else {
                1int
            })
        } else {
            0int
        },
    decreases n,
{
    if n > 0 {
        lemma_count_update(board, s, p, n - 1);
    }
}

/// A capture, applied to a position where a piece of another kind than the
/// mover stands on the destination square, puts the mover on the destination
/// square, clears the captured piece's bit there in its occupancy word, and
/// shrinks the piece count by exactly one.
pub proof fn lemma_capture_removes_one(pre: GameState, m: GameMove, post: GameState)
    requires
        pre.wf(),
        post.wf(),
        make_rel(pre, m, post),
        m.kind() == MoveType::Capture,
        m.from_sq() != m.to_sq(),
        pre.board()[m.from_sq() as int] != Piece::Null,
        pre.board()[m.to_sq() as int] != Piece::Null,
        pre.board()[m.to_sq() as int] != pre.board()[m.from_sq() as int],
    ensures
        post.board()[m.to_sq() as int] == pre.board()[m.from_sq() as int],
        post.board()[m.from_sq() as int] == Piece::Null,
        !bit64(
            post.bbs@[piece_idx(pre.board()[m.to_sq() as int])],
            m.to_sq() as u64,
        ),
        count_pieces(post.board()) == count_pieces(pre.board()) - 1,
{
    let b = pre.board();
    let from = m.from_sq() as int;
    let to = m.to_sq() as int;
    let moving = b[from];
    let captured = b[to];
    crate::game_move::lemma_move_bits(m);
    assert(m.kind_code() == 4);
    let b1 = b.update(to, Piece::Null);
    let b2 = b1.update(from, Piece::Null);
    let b3 = b2.update(to, moving);
    assert(post.board() == b3);
    lemma_bb_of_bit(b3, piece_idx(captured), m.to_sq() as u64);
    lemma_count_update(b, to, Piece::Null, 64);
    lemma_count_update(b1, from, Piece::Null, 64);
    lemma_count_update(b2, to, moving, 64);
}

/// A quiet move keeps the piece count unchanged: the mover leaves its source
/// square and reappears on the (previously empty) destination square.
pub proof fn lemma_quiet_keeps_count(pre: GameState, m: GameMove, post: GameState)
    requires
        pre.wf(),
        post.wf(),
        make_rel(pre, m, post),
        m.kind() == MoveType::Quiet,
        m.from_sq() != m.to_sq(),
        pre.board()[m.from_sq() as int] != Piece::Null,
        pre.board()[m.to_sq() as int] == Piece::Null,
    ensures
        post.board()[m.to_sq() as int] == pre.board()[m.from_sq() as int],
        post.board()[m.from_sq() as int] == Piece::Null,
        count_pieces(post.board()) == count_pieces(pre.board()),
{
    let b = pre.board();
    let from = m.from_sq() as int;
    let to = m.to_sq() as int;
    let moving = b[from];
    crate::game_move::lemma_move_bits(m);
    assert(m.kind_code() == 0);
    let b2 = b.update(from, Piece::Null);
    lemma_count_update(b, from, Piece::Null, 64);
    lemma_count_update(b2, to, moving, 64);
}

/// After any castle, both castling-right flags of the moving side are false
/// regardless of their prior value, and the king and rook stand on the fixed
/// destination squares of that castle direction and side.
pub proof fn lemma_castle_invariants(pre: GameState, m: GameMove, post: GameState)
    requires
        pre.wf(),
        post.wf(),
        make_rel(pre, m, post),
        is_castle(m),
    ensures
        pre.white_to_move ==> !post.castlerights@[0] && !post.castlerights@[1],
        !pre.white_to_move ==> !post.castlerights@[2] && !post.castlerights@[3],
        post.board()[castle_king_to(m.kind() == MoveType::KingCastle, pre.white_to_move) as int]
            == if pre.white_to_move {
            Piece::WhiteKing
        } else {
            Piece::BlackKing
        },
        post.board()[castle_rook_to(m.kind() == MoveType::KingCastle, pre.white_to_move) as int]
            == if pre.white_to_move {
            Piece::WhiteRook
        } else {
            Piece::BlackRook
        },
{
}

/// After a promotion move, the destination square holds the requested
/// promoted piece kind of the moving side, never a pawn.
pub proof fn lemma_promotion(pre: GameState, m: GameMove, post: GameState)
    requires
        pre.wf(),
        post.wf(),
        make_rel(pre, m, post),
        !is_castle(m),
        m.spec_is_promo(),
    ensures
        Some(post.board()[m.to_sq() as int]) == m.spec_promo_piece(pre.white_to_move),
        post.board()[m.to_sq() as int] != Piece::WhitePawn,
        post.board()[m.to_sq() as int] != Piece::BlackPawn,
{
    crate::game_move::lemma_move_bits(m);
}

/// Clock bookkeeping: the half-move clock resets to zero on any capture or
/// pawn move and otherwise increments by one (castling increments it), and
/// the full-move counter increments exactly when black just moved.
pub proof fn lemma_clock_bookkeeping(pre: GameState, m: GameMove, post: GameState)
    requires
        make_rel(pre, m, post),
    ensures
        resets_halfmove(pre, m) ==> post.halfmove_clock == 0,
        !resets_halfmove(pre, m) ==> post.halfmove_clock == pre.halfmove_clock + 1,
        pre.white_to_move ==> post.fullmove_clock == pre.fullmove_clock,
        !pre.white_to_move ==> post.fullmove_clock == pre.fullmove_clock + 1,
{
}

/// Castling rights are one-way: once a flag is false, applying a move never
/// sets it back to true.
pub proof fn lemma_castlerights_one_way(pre: GameState, m: GameMove, post: GameState, i: int)
    requires
        make_rel(pre, m, post),
        0 <= i < 4,
        !pre.castlerights@[i],
    ensures
        !post.castlerights@[i],
{
}

/// Castling rights are one-way along whole games: in any chain of states
/// where each arises from its predecessor by a move, a flag that is false at
/// some point stays false in every later state.
pub proof fn lemma_castlerights_one_way_chain(
    states: Seq<GameState>,
    moves: Seq<GameMove>,
    i: int,
    j: int,
    k: int,
)
    requires
        states.len() == moves.len() + 1,
        forall|n: int|
            0 <= n < moves.len() ==> make_rel(#[trigger] states[n], moves[n], states[n + 1]),
        0 <= i < 4,
        0 <= j <= k < states.len(),
        !states[j].castlerights@[i],
    ensures
        !states[k].castlerights@[i],
    decreases k - j,
{
    if k > j {
        lemma_castlerights_one_way_chain(states, moves, i, j, k - 1);
        lemma_castlerights_one_way(states[k - 1], moves[k - 1], states[k], i);
    }
}

/// We store the state stack in the stack for fast access, so it has a
/// maximum size; pushing beyond it is excluded by precondition.
pub const MAX_MOVESTACK_DEPTH: usize = 100;

/// Represents a stack of game states that have occurred from the initial
/// position.
pub struct StateStack {
    pub backing: Vec<GameState>,
}

impl View for StateStack {
    type V = Seq<GameState>;

    open spec fn view(&self) -> Seq<GameState> {
        self.backing@
    }
}

impl StateStack {
    /// Create a new empty state stack.
    pub fn new() -> (r: Self)
        ensures
            r@ == Seq::<GameState>::empty(),
    {
        StateStack { backing: Vec::new() }
    }

    /// Add a game state to the top of the stack. The stack must not be at
    /// capacity.
    pub fn push(&mut self, elt: GameState)
        requires
            old(self)@.len() < MAX_MOVESTACK_DEPTH,
        ensures
            final(self)@ == old(self)@.push(elt),
    {
        self.backing.push(elt);
    }

    /// Get an immutable reference to the top element on the stack, or none
    /// if the stack is empty.
    pub fn peek(&self) -> (r: Option<&GameState>)
        ensures
            self@.len() == 0 ==> r is None,
            self@.len() > 0 ==> (r matches Some(g) && *g == self@.last()),
    {
        if self.backing.len() == 0 {
            return None;
        }
        Some(&self.backing[self.backing.len() - 1])
    }

    /// Remove and return the top game state on the stack, or none if the
    /// stack is empty.
    pub fn pop(&mut self) -> (r: Option<GameState>)
        ensures
            old(self)@.len() == 0 ==> r is None && final(self)@ == old(self)@,
            old(self)@.len() > 0 ==> r == Some(old(self)@.last()) && final(self)@ == old(
                self,
            )@.drop_last(),
    {
        if self.backing.len() == 0 {
            return None;
        }
        self.backing.pop()
    }
}

/// Represents a game: a wrapper around a state stack of game states. Its
/// view is the sequence of states since the starting position, the current
/// one last.
pub struct Game {
    pub stack: StateStack,
    pub depth_from_start: u8,
}

impl View for Game {
    type V = Seq<GameState>;

    open spec fn view(&self) -> Seq<GameState> {
        self.stack@
    }
}

impl Game {
    /// Well-formedness: the stack holds the starting state plus one state
    /// per move made, all well formed, within capacity.
    pub open spec fn wf(self) -> bool {
        &&& self.stack@.len() == self.depth_from_start + 1
        &&& self.stack@.len() <= MAX_MOVESTACK_DEPTH
        &&& forall|i: int| 0 <= i < self.stack@.len() ==> (#[trigger] self.stack@[i]).wf()
    }

    /// Create a new game, initializing the stack with the given starting
    /// game state.
    pub fn new(starting_state: GameState) -> (r: Self)
        requires
            starting_state.wf(),
        ensures
            r.wf(),
            r@ == seq![starting_state],
    {
        let mut game = Game { stack: StateStack::new(), depth_from_start: 0 };
        game.stack.push(starting_state);
        proof {
            assert(game@ =~= seq![starting_state]);
        }
        game
    }

    /// Apply the given move to the current state and push the new state on
    /// the stack.
    pub fn make(&mut self, game_move: GameMove)
        requires
            old(self).wf(),
            old(self)@.len() < MAX_MOVESTACK_DEPTH,
            make_ok(old(self)@.last(), game_move),
        ensures
            final(self).wf(),
            final(self)@.len() == old(self)@.len() + 1,
            final(self)@.drop_last() == old(self)@,
            make_rel(old(self)@.last(), game_move, final(self)@.last()),
    {
        let cur_state = match self.stack.peek() {
            Some(s) => *s,
            None => unreached(),
        };
        let next_state = cur_state.make(game_move);
        self.stack.push(next_state);
        self.depth_from_start = self.depth_from_start + 1;
        proof {
            assert(final(self)@.drop_last() =~= old(self)@);
        }
    }

    /// Revert this game to the state before the previous move.
    pub fn unmake(&mut self)
        requires
            old(self).wf(),
            old(self).depth_from_start > 0,
        ensures
            final(self).wf(),
            final(self)@ == old(self)@.drop_last(),
    {
        self.stack.pop();
        self.depth_from_start = self.depth_from_start - 1;
    }

    /// Get the current game state.
    pub fn current_state(&self) -> (r: GameState)
        requires
            self.wf(),
        ensures
            r == self@.last(),
    {
        match self.stack.peek() {
            Some(s) => *s,
            None => unreached(),
        }
    }
}

} // verus!
