//! Compact move encoding: a move is a 16-bit word holding the source square
//! (bits 15..10), the destination square (bits 9..4) and a 4-bit move-kind
//! code (bits 3..0).
//!
//! Move-kind code semantics (bit 3 = promotion, bit 2 = capture, bits 1..0
//! disambiguate):
//!
//! | code | kind               |
//! |------|--------------------|
//! | 0    | Quiet              |
//! | 1    | DoublePawnPush     |
//! | 2    | KingCastle         |
//! | 3    | QueenCastle        |
//! | 4    | Capture            |
//! | 5    | EpCapture          |
//! | 6, 7 | NullMove           |
//! | 8    | KnightPromo        |
//! | 9    | BishopPromo        |
//! | 10   | RookPromo          |
//! | 11   | QueenPromo         |
//! | 12   | KnightPromoCapture |
//! | 13   | BishopPromoCapture |
//! | 14   | RookPromoCapture   |
//! | 15   | QueenPromoCapture  |
//!
//! Note: castling's source square is the king's square.

use vstd::prelude::*;
use crate::game_state::{Piece, Square};

verus! {

/// Represents the kinds of moves that can occur. See `GameMove` docs.
#[derive(Copy, Clone, Debug, PartialEq, Eq, Structural)]
pub enum MoveType {
    NullMove,
    Quiet,
    DoublePawnPush,
    KingCastle,
    QueenCastle,
    Capture,
    EpCapture,
    KnightPromo,
    BishopPromo,
    RookPromo,
    QueenPromo,
    KnightPromoCapture,
    BishopPromoCapture,
    RookPromoCapture,
    QueenPromoCapture,
}

/// The 4-bit code that encodes a move kind (`NullMove` encodes as 6).
pub open spec fn type_code(t: MoveType) -> u16 {
    match t {
        MoveType::Quiet => 0,
        MoveType::DoublePawnPush => 1,
        MoveType::KingCastle => 2,
        MoveType::QueenCastle => 3,
        MoveType::Capture => 4,
        MoveType::EpCapture => 5,
        MoveType::NullMove => 6,
        MoveType::KnightPromo => 8,
        MoveType::BishopPromo => 9,
        MoveType::RookPromo => 10,
        MoveType::QueenPromo => 11,
        MoveType::KnightPromoCapture => 12,
        MoveType::BishopPromoCapture => 13,
        MoveType::RookPromoCapture => 14,
        MoveType::QueenPromoCapture => 15,
    }
}

/// The move kind denoted by a 4-bit code (codes 6 and 7 both denote the
/// null move).
pub open spec fn code_type(c: u16) -> MoveType {
    if c == 0 {
        MoveType::Quiet
    } else if c == 1 {
        MoveType::DoublePawnPush
    } else if c == 2 {
        MoveType::KingCastle
    } else if c == 3 {
        MoveType::QueenCastle
    } else if c == 4 {
        MoveType::Capture
    } else if c == 5 {
        MoveType::EpCapture
    } else if c == 8 {
        MoveType::KnightPromo
    } else if c == 9 {
        MoveType::BishopPromo
    } else if c == 10 {
        MoveType::RookPromo
    } else if c == 11 {
        MoveType::QueenPromo
    } else if c == 12 {
        MoveType::KnightPromoCapture
    } else if c == 13 {
        MoveType::BishopPromoCapture
    } else if c == 14 {
        MoveType::RookPromoCapture
    } else if c == 15 {
        MoveType::QueenPromoCapture
    } else {
        MoveType::NullMove
    }
}

/// Represents a move with from-to square indices as the first 12 bits (6 for
/// each), and the last 4 bits as the move-kind code.
#[derive(Copy, Clone, Debug, PartialEq, Eq, Structural)]
pub struct GameMove {
    pub data: u16,
}

impl GameMove {
    /// The source square held in bits 15..10.
    pub open spec fn from_sq(self) -> u8 {
        (self.data >> 10) as u8
    }

    /// The destination square held in bits 9..4.
    pub open spec fn to_sq(self) -> u8 {
        ((self.data >> 4) & 63) as u8
    }

    /// The move-kind code held in bits 3..0.
    pub open spec fn kind_code(self) -> u16 {
        self.data & 15
    }

    /// The move kind this move's code denotes.
    pub open spec fn kind(self) -> MoveType {
        code_type(self.kind_code())
    }

    /// Whether the capture bit (bit 2 of the code) is set.
    pub open spec fn spec_is_capture(self) -> bool {
        self.data & 4 != 0
    }

    /// Whether the promotion bit (bit 3 of the code) is set.
    pub open spec fn spec_is_promo(self) -> bool {
        self.data & 8 != 0
    }

    /// The piece a promotion move promotes to, for the given side to move;
    /// none when this is not a promotion move.
    pub open spec fn spec_promo_piece(self, white_to_move: bool) -> Option<Piece> {
        if !self.spec_is_promo() {
            None
        } else if self.data & 3 == 0 {
            Some(if white_to_move { Piece::WhiteKnight } else { Piece::BlackKnight })
        } else if self.data & 3 == 1 {
            Some(if white_to_move { Piece::WhiteBishop } else { Piece::BlackBishop })
        } else if self.data & 3 == 2 {
            Some(if white_to_move { Piece::WhiteRook } else { Piece::BlackRook })
        } else {
            Some(if white_to_move { Piece::WhiteQueen } else { Piece::BlackQueen })
        }
    }

    /// Create a game move from the given from-square, to-square, and move
    /// kind.
    pub fn new(fromsquare: Square, tosquare: Square, move_type: MoveType) -> (r: Self)
        requires
            fromsquare < 64,
            tosquare < 64,
        ensures
            r.from_sq() == fromsquare,
            r.to_sq() == tosquare,
            r.kind_code() == type_code(move_type),
            r.kind() == if move_type == MoveType::NullMove { MoveType::NullMove } else { move_type },
    {
        let code: u16 = match move_type {
            MoveType::Quiet => 0,
            MoveType::DoublePawnPush => 1,
            MoveType::KingCastle => 2,
            MoveType::QueenCastle => 3,
            MoveType::Capture => 4,
            MoveType::EpCapture => 5,
            MoveType::NullMove => 6,
            MoveType::KnightPromo => 8,
            MoveType::BishopPromo => 9,
            MoveType::RookPromo => 10,
            MoveType::QueenPromo => 11,
            MoveType::KnightPromoCapture => 12,
            MoveType::BishopPromoCapture => 13,
            MoveType::RookPromoCapture => 14,
            MoveType::QueenPromoCapture => 15,
        };
        let f = fromsquare as u16;
        let t = tosquare as u16;
        let val = (((f << 6) | t) << 4) | code;
        proof {
            assert(f < 64 && t < 64 && code < 16 ==> {
                let v = ((((f << 6u16) | t) << 4u16) | code);
                (v >> 10u16) == f && ((v >> 4u16) & 63) == t && (v & 15) == code
            }) by (bit_vector);
        }
        GameMove { data: val }
    }

    /// Create a game move from a packed 16-bit value.
    pub fn from_val(val: u16) -> (r: Self)
        ensures
            r.data == val,
    {
        GameMove { data: val }
    }

    /// Get the from-square index of this move.
    pub fn fromsquare(&self) -> (r: Square)
        ensures
            r == self.from_sq(),
            r < 64,
    {
        proof {
            let d = self.data;
            assert((d >> 10u16) < 64) by (bit_vector);
        }
        (self.data >> 10) as u8
    }

    /// Get the to-square index of this move.
    pub fn tosquare(&self) -> (r: Square)
        ensures
            r == self.to_sq(),
            r < 64,
    {
        proof {
            let d = self.data;
            assert(((d >> 4u16) & 63) < 64) by (bit_vector);
        }
        ((self.data >> 4) & 63) as u8
    }

    /// Get the move kind of this move.
    pub fn move_type(&self) -> (r: MoveType)
        ensures
            r == self.kind(),
    {
        let c = self.data & 15;
        proof {
            let d = self.data;
            assert((d & 15) < 16) by (bit_vector);
        }
        if c == 0 {
            MoveType::Quiet
        } else if c == 1 {
            MoveType::DoublePawnPush
        } else if c == 2 {
            MoveType::KingCastle
        } else if c == 3 {
            MoveType::QueenCastle
        } else if c == 4 {
            MoveType::Capture
        } else if c == 5 {
            MoveType::EpCapture
        } else if c == 8 {
            MoveType::KnightPromo
        } else if c == 9 {
            MoveType::BishopPromo
        } else if c == 10 {
            MoveType::RookPromo
        } else if c == 11 {
            MoveType::QueenPromo
        } else if c == 12 {
            MoveType::KnightPromoCapture
        } else if c == 13 {
            MoveType::BishopPromoCapture
        } else if c == 14 {
            MoveType::RookPromoCapture
        } else if c == 15 {
            MoveType::QueenPromoCapture
        } else {
            MoveType::NullMove
        }
    }

    /// Returns whether this move has the capture bit set.
    pub fn is_capture(&self) -> (r: bool)
        ensures
            r == self.spec_is_capture(),
    {
        self.data & 4 != 0
    }

    /// Returns whether this move has the promotion bit set.
    pub fn is_promo(&self) -> (r: bool)
        ensures
            r == self.spec_is_promo(),
    {
        self.data & 8 != 0
    }

    /// Get the piece this move promotes to, given the side to move; none when
    /// this is not a promotion move.
    pub fn promo_piece(&self, white_to_move: bool) -> (r: Option<Piece>)
        ensures
            r == self.spec_promo_piece(white_to_move),
    {
        if !self.is_promo() {
            return None;
        }
        let low = self.data & 3;
        if low == 0 {
            Some(if white_to_move { Piece::WhiteKnight } else { Piece::BlackKnight })
        } else if low == 1 {
            Some(if white_to_move { Piece::WhiteBishop } else { Piece::BlackBishop })
        } else if low == 2 {
            Some(if white_to_move { Piece::WhiteRook } else { Piece::BlackRook })
        } else {
            Some(if white_to_move { Piece::WhiteQueen } else { Piece::BlackQueen })
        }
    }
}

/// How the structural bits of the 4-bit move-kind code relate to its value:
/// bit 2 marks a capture and bit 3 a promotion.
pub proof fn lemma_move_bits(m: GameMove)
    ensures
        m.from_sq() < 64,
        m.to_sq() < 64,
        m.kind_code() < 16,
        m.spec_is_capture() <==> (m.kind_code() == 4 || m.kind_code() == 5 || m.kind_code() == 6
            || m.kind_code() == 7 || m.kind_code() >= 12),
        m.spec_is_promo() <==> m.kind_code() >= 8,
{
    let d = m.data;
    assert((d >> 10) < 64 && ((d >> 4) & 63) < 64 && (d & 15) < 16 && ((d & 4 != 0) <==> ((d & 15)
        == 4 || (d & 15) == 5 || (d & 15) == 6 || (d & 15) == 7 || (d & 15) >= 12)) && ((d & 8 != 0)
        <==> (d & 15) >= 8)) by (bit_vector);
}

} // verus!
