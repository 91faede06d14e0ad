//! Textual position codec: a bidirectional mapping between a game state and
//! a 6-field whitespace-separated record (piece placement, side to move,
//! castling rights, en-passant target, full-move clock, half-move clock).
//!
//! Serialization is the exact left inverse of parsing: re-parsing a
//! serialized record reproduces an indistinguishable game state.

use vstd::prelude::*;
use crate::game_state::{GameState, Square, Piece, bb_of};

verus! {

// ---------------------------------------------------------------------------
// Character tables
// ---------------------------------------------------------------------------

/// The placement-field character of a (real) piece kind: uppercase for
/// white, lowercase for black.
pub open spec fn piece_char(p: Piece) -> char {
    match p {
        Piece::WhitePawn => 'P',
        Piece::WhiteBishop => 'B',
        Piece::WhiteKnight => 'N',
        Piece::WhiteRook => 'R',
        Piece::WhiteQueen => 'Q',
        Piece::WhiteKing => 'K',
        Piece::BlackPawn => 'p',
        Piece::BlackBishop => 'b',
        Piece::BlackKnight => 'n',
        Piece::BlackRook => 'r',
        Piece::BlackQueen => 'q',
        Piece::BlackKing => 'k',
        Piece::Null => ' ',
    }
}

/// The piece kind a placement character denotes, if any.
pub open spec fn char_piece(c: char) -> Option<Piece> {
    if c == 'P' {
        Some(Piece::WhitePawn)
    } else if c == 'B' {
        Some(Piece::WhiteBishop)
    } else if c == 'N' {
        Some(Piece::WhiteKnight)
    } else if c == 'R' {
        Some(Piece::WhiteRook)
    } else if c == 'Q' {
        Some(Piece::WhiteQueen)
    } else if c == 'K' {
        Some(Piece::WhiteKing)
    } else if c == 'p' {
        Some(Piece::BlackPawn)
    } else if c == 'b' {
        Some(Piece::BlackBishop)
    } else if c == 'n' {
        Some(Piece::BlackKnight)
    } else if c == 'r' {
        Some(Piece::BlackRook)
    } else if c == 'q' {
        Some(Piece::BlackQueen)
    } else if c == 'k' {
        Some(Piece::BlackKing)
    } else {
        None
    }
}

/// The decimal digit character for `n` in 0..=9 (other values give '0').
pub open spec fn digit_char(n: int) -> char {
    if n == 1 {
        '1'
    } else if n == 2 {
        '2'
    } else if n == 3 {
        '3'
    } else if n == 4 {
        '4'
    } else if n == 5 {
        '5'
    } else if n == 6 {
        '6'
    } else if n == 7 {
        '7'
    } else if n == 8 {
        '8'
    } else if n == 9 {
        '9'
    } else {
        '0'
    }
}

/// The value of a decimal digit character, or none.
pub open spec fn digit_val(c: char) -> Option<int> {
    if c == '0' {
        Some(0int)
    } else if c == '1' {
        Some(1int)
    } else if c == '2' {
        Some(2int)
    } else if c == '3' {
        Some(3int)
    } else if c == '4' {
        Some(4int)
    } else if c == '5' {
        Some(5int)
    } else if c == '6' {
        Some(6int)
    } else if c == '7' {
        Some(7int)
    } else if c == '8' {
        Some(8int)
    } else if c == '9' {
        Some(9int)
    } else {
        None
    }
}

/// The letter of a file index in 0..=7 (other values give 'a').
pub open spec fn file_char(f: int) -> char {
    if f == 1 {
        'b'
    } else if f == 2 {
        'c'
    } else if f == 3 {
        'd'
    } else if f == 4 {
        'e'
    } else if f == 5 {
        'f'
    } else if f == 6 {
        'g'
    } else if f == 7 {
        'h'
    } else {
        'a'
    }
}

/// The file index a letter denotes, or none.
pub open spec fn char_file(c: char) -> Option<int> {
    if c == 'a' {
        Some(0int)
    } else if c == 'b' {
        Some(1int)
    } else if c == 'c' {
        Some(2int)
    } else if c == 'd' {
        Some(3int)
    } else if c == 'e' {
        Some(4int)
    } else if c == 'f' {
        Some(5int)
    } else if c == 'g' {
        Some(6int)
    } else if c == 'h' {
        Some(7int)
    } else {
        None
    }
}

// ---------------------------------------------------------------------------
// The abstract content of a textual record
// ---------------------------------------------------------------------------

/// The abstract content of a position: what the textual record carries. The
/// board is 64 occupants, square 0 (a1) first; castling rights are in the
/// order white kingside, white queenside, black kingside, black queenside.
#[verifier::ext_equal]
pub struct FenData {
    pub board: Seq<Piece>,
    pub white_to_move: bool,
    pub castlerights: Seq<bool>,
    pub ep_square: Option<u8>,
    pub halfmove_clock: u8,
    pub fullmove_clock: u32,
}

/// The shape every game state's content has: a full board, four rights
/// flags, and an in-range en-passant target.
pub open spec fn fen_data_valid(d: FenData) -> bool {
    &&& d.board.len() == 64
    &&& d.castlerights.len() == 4
    &&& (d.ep_square matches Some(e) ==> e < 64)
}

/// The abstract content of a game state.
pub open spec fn state_data(gs: GameState) -> FenData {
    FenData {
        board: gs.board(),
        white_to_move: gs.white_to_move,
        castlerights: gs.castlerights@,
        ep_square: gs.ep_square,
        halfmove_clock: gs.halfmove_clock,
        fullmove_clock: gs.fullmove_clock,
    }
}

// ---------------------------------------------------------------------------
// Serialization (spec)
// ---------------------------------------------------------------------------

/// The 8 squares of rank `r`, file 0 first.
pub open spec fn rank_seq(board: Seq<Piece>, r: int) -> Seq<Piece> {
    Seq::new(8, |f: int| board[r * 8 + f])
}

/// The run-length encoding of the squares of one rank from file `i` on,
/// with `pending` empty squares seen immediately before `i` and not yet
/// emitted as a digit.
pub open spec fn rle_aux(s: Seq<Piece>, i: int, pending: int) -> Seq<char>
    decreases s.len() - i,
{
    if i < 0 || i >= s.len() {
        if pending > 0 {
            seq![digit_char(pending)]
        } else {
            Seq::empty()
        }
    } else if s[i] == Piece::Null {
        rle_aux(s, i + 1, pending + 1)
    } else {
        (if pending > 0 {
            seq![digit_char(pending)]
        } else {
            Seq::empty()
        }) + seq![piece_char(s[i])] + rle_aux(s, i + 1, 0)
    }
}

/// The placement group of one rank: pieces as characters, runs of empty
/// squares as digits.
pub open spec fn rle_rank(s: Seq<Piece>) -> Seq<char> {
    rle_aux(s, 0, 0)
}

/// The placement groups of ranks `r` down to 0, slash-separated.
pub open spec fn placement_rec(board: Seq<Piece>, r: int) -> Seq<char>
    decreases r,
{
    if r <= 0 {
        rle_rank(rank_seq(board, 0))
    } else {
        rle_rank(rank_seq(board, r)) + seq!['/'] + placement_rec(board, r - 1)
    }
}

/// The placement field: 8 slash-separated rank groups, rank 7 first.
pub open spec fn placement_of(board: Seq<Piece>) -> Seq<char> {
    placement_rec(board, 7)
}

/// The side-to-move field.
pub open spec fn side_field(white_to_move: bool) -> Seq<char> {
    if white_to_move {
        seq!['w']
    } else {
        seq!['b']
    }
}

/// The castling-rights field: the subset of "KQkq" whose flags are set
/// (empty when none is).
pub open spec fn castle_field(cr: Seq<bool>) -> Seq<char> {
    (if cr[0] {
        seq!['K']
    } else {
        Seq::empty()
    }) + (if cr[1] {
        seq!['Q']
    } else {
        Seq::empty()
    }) + (if cr[2] {
        seq!['k']
    } else {
        Seq::empty()
    }) + (if cr[3] {
        seq!['q']
    } else {
        Seq::empty()
    })
}

/// The en-passant field: '-' for none, else file letter then rank digit.
pub open spec fn ep_field(ep_square: Option<u8>) -> Seq<char> {
    match ep_square {
        None => seq!['-'],
        Some(e) => seq![file_char(e as int % 8), digit_char(e as int / 8 + 1)],
    }
}

/// The decimal representation of a non-negative integer, most significant
/// digit first, without leading zeros.
pub open spec fn dec_rep(n: int) -> Seq<char>
    decreases n,
{
    if n < 10 {
        seq![digit_char(n)]
    } else {
        dec_rep(n / 10).push(digit_char(n % 10))
    }
}

/// A list of fields joined with single spaces.
pub open spec fn join_fields(fs: Seq<Seq<char>>) -> Seq<char>
    decreases fs.len(),
{
    if fs.len() == 0 {
        Seq::empty()
    } else if fs.len() == 1 {
        fs[0]
    } else {
        fs[0] + seq![' '] + join_fields(fs.drop_first())
    }
}

/// The six fields of a record, in order: placement, side to move, castling
/// rights, en-passant target, full-move clock, half-move clock.
pub open spec fn fen_fields(d: FenData) -> Seq<Seq<char>> {
    seq![
        placement_of(d.board),
        side_field(d.white_to_move),
        castle_field(d.castlerights),
        ep_field(d.ep_square),
        dec_rep(d.fullmove_clock as int),
        dec_rep(d.halfmove_clock as int),
    ]
}

/// The whole textual record: the six fields joined with single spaces, the
/// full-move clock before the half-move clock.
pub open spec fn fen_of(d: FenData) -> Seq<char> {
    join_fields(fen_fields(d))
}

// ---------------------------------------------------------------------------
// Parsing (spec)
// ---------------------------------------------------------------------------

/// Split a character sequence on a separator; consecutive separators yield
/// empty fields, and `n` separators always yield `n + 1` fields.
pub open spec fn split_on(s: Seq<char>, sep: char) -> Seq<Seq<char>>
    decreases s.len(),
{
    if s.len() == 0 {
        seq![Seq::empty()]
    } else {
        let rest = split_on(s.subrange(1, s.len() as int), sep);
        if s[0] == sep {
            seq![Seq::<char>::empty()] + rest
        } else {
            seq![seq![s[0]] + rest[0]] + rest.subrange(1, rest.len() as int)
        }
    }
}

/// A sequence of `n` empty squares.
pub open spec fn nulls(n: int) -> Seq<Piece> {
    Seq::new(n as nat, |i: int| Piece::Null)
}

/// Expand one rank group: each digit 1..=8 denotes that many empty squares,
/// each piece letter one occupant; any other character fails.
pub open spec fn expand_front(g: Seq<char>) -> Option<Seq<Piece>>
    decreases g.len(),
{
    if g.len() == 0 {
        Some(Seq::empty())
    } else {
        let c = g[0];
        let rest = expand_front(g.subrange(1, g.len() as int));
        if digit_val(c) matches Some(d) && 1 <= d <= 8 {
            match rest {
                Some(r) => Some(nulls(digit_val(c).unwrap()) + r),
                None => None,
            }
        } else {
            match char_piece(c) {
                Some(p) => match rest {
                    Some(r) => Some(seq![p] + r),
                    None => None,
                },
                None => None,
            }
        }
    }
}

/// Parse one rank group: it must expand to exactly 8 squares.
pub open spec fn expand_rank(g: Seq<char>) -> Option<Seq<Piece>> {
    match expand_front(g) {
        Some(s) => if s.len() == 8 {
            Some(s)
        } else {
            None
        },
        None => None,
    }
}

/// The concatenation of the parsed ranks 0..`i`, rank 0 (taken from the
/// last group) first.
pub open spec fn cat_ranks(groups: Seq<Seq<char>>, i: int) -> Option<Seq<Piece>>
    decreases i,
{
    if i <= 0 {
        Some(Seq::empty())
    } else {
        match (cat_ranks(groups, i - 1), expand_rank(groups[8 - i])) {
            (Some(acc), Some(rk)) => Some(acc + rk),
            _ => None,
        }
    }
}

/// Parse the placement field: 8 slash-separated rank groups, rank 7 first,
/// each expanding to exactly 8 squares.
pub open spec fn parse_placement(s: Seq<char>) -> Option<Seq<Piece>> {
    let groups = split_on(s, '/');
    if groups.len() != 8 {
        None
    } else {
        cat_ranks(groups, 8)
    }
}

/// Parse the side-to-move field: exactly "w" or "b".
pub open spec fn parse_side(s: Seq<char>) -> Option<bool> {
    if s =~= seq!['w'] {
        Some(true)
    } else if s =~= seq!['b'] {
        Some(false)
    } else {
        None
    }
}

/// Parse the castling-rights field: a flag is set exactly when its
/// character occurs (this field never fails to parse).
pub open spec fn parse_castle(s: Seq<char>) -> Seq<bool> {
    seq![s.contains('K'), s.contains('Q'), s.contains('k'), s.contains('q')]
}

/// Parse the en-passant field: '-' means none; a file letter followed by a
/// rank digit names a square.
pub open spec fn parse_ep(s: Seq<char>) -> Option<Option<u8>> {
    if s =~= seq!['-'] {
        Some(None)
    } else if s.len() == 2 {
        match (char_file(s[0]), digit_val(s[1])) {
            (Some(f), Some(d)) => if 1 <= d <= 8 {
                Some(Some((((d - 1) * 8) + f) as u8))
            } else {
                None
            },
            _ => None,
        }
    } else {
        None
    }
}

/// The value of a non-empty all-digit sequence, most significant first.
pub open spec fn dec_val(s: Seq<char>) -> Option<int>
    decreases s.len(),
{
    if s.len() == 0 {
        None
    } else if s.len() == 1 {
        digit_val(s[0])
    } else {
        match (dec_val(s.drop_last()), digit_val(s.last())) {
            (Some(v), Some(d)) => Some(v * 10 + d),
            _ => None,
        }
    }
}

/// Parse a whole textual record into its abstract content: six
/// space-separated fields, each in its format, the clocks within range.
pub open spec fn parse_fen_spec(s: Seq<char>) -> Option<FenData> {
    let fields = split_on(s, ' ');
    if fields.len() != 6 {
        None
    } else {
        let board = parse_placement(fields[0]);
        let side = parse_side(fields[1]);
        let rights = parse_castle(fields[2]);
        let ep = parse_ep(fields[3]);
        let fullmove = dec_val(fields[4]);
        let halfmove = dec_val(fields[5]);
        if board is Some && side is Some && ep is Some && (fullmove matches Some(fm) && 0 <= fm
            <= u32::MAX) && (halfmove matches Some(hm) && 0 <= hm <= 255) {
            Some(
                FenData {
                    board: board.unwrap(),
                    white_to_move: side.unwrap(),
                    castlerights: rights,
                    ep_square: ep.unwrap(),
                    halfmove_clock: halfmove.unwrap() as u8,
                    fullmove_clock: fullmove.unwrap() as u32,
                },
            )
        } else {
            None
        }
    }
}

// ---------------------------------------------------------------------------
// Executable string helpers
// ---------------------------------------------------------------------------

/// Relies on String::push: appends the given character to the end of the
/// string.
#[verifier::external_body]
fn push_char(s: &mut String, c: char)
    ensures
        final(s)@ == old(s)@.push(c),
{
    s.push(c);
}

/// The characters of a string slice, as a vector.
fn str_chars(s: &str) -> (r: Vec<char>)
    ensures
        r@ == s@,
{
    let n = s.unicode_len();
    let mut r: Vec<char> = Vec::new();
    let mut i: usize = 0;
    while i < n
        invariant
            n == s@.len(),
            i <= n,
            r@ == s@.subrange(0, i as int),
        decreases n - i,
    {
        r.push(s.get_char(i));
        proof {
            assert(r@ =~= s@.subrange(0, i + 1));
        }
        i = i + 1;
    }
    proof {
        assert(r@ =~= s@);
    }
    r
}

/// Split a string on a separator character; consecutive separators yield
/// empty fields.
fn split_string(s: &str, sep: char) -> (r: Vec<String>)
    ensures
        r@.len() == split_on(s@, sep).len(),
        forall|i: int| 0 <= i < r@.len() ==> r@[i]@ == #[trigger] split_on(s@, sep)[i],
{
    let chars = str_chars(s);
    let n = chars.len();
    let mut fields: Vec<String> = Vec::new();
    let mut cur: String = String::new();
    let mut i: usize = 0;
    proof {
        assert(s@.subrange(0, n as int) =~= s@);
    }
    while i < n
        invariant
            n == s@.len(),
            chars@ == s@,
            i <= n,
            ({
                let rest = split_on(s@.subrange(i as int, n as int), sep);
                split_on(s@, sep) =~= fields@.map_values(|f: String| f@) + seq![cur@ + rest[0]]
                    + rest.subrange(1, rest.len() as int)
            }),
        decreases n - i,
    {
        let ghost pre_suffix = s@.subrange(i as int, n as int);
        let ghost post_suffix = s@.subrange(i + 1, n as int);
        proof {
            assert(pre_suffix.len() > 0);
            assert(pre_suffix[0] == s@[i as int]);
            assert(pre_suffix.subrange(1, pre_suffix.len() as int) =~= post_suffix);
        }
        let c = chars[i];
        let ghost old_fields = fields@;
        let ghost old_cur = cur@;
        if c == sep {
            let done = cur;
            fields.push(done);
            cur = String::new();
            proof {
                let rest = split_on(post_suffix, sep);
                assert(split_on(pre_suffix, sep) =~~= seq![Seq::<char>::empty()] + rest);
                assert(fields@.map_values(|f: String| f@) =~~= old_fields.map_values(
                    |f: String| f@,
                ).push(old_cur));
                assert(split_on(s@, sep) =~~= fields@.map_values(|f: String| f@) + seq![
                    cur@ + rest[0],
                ] + rest.subrange(1, rest.len() as int));
            }
        } else {
            push_char(&mut cur, c);
            proof {
                let rest = split_on(post_suffix, sep);
                assert(split_on(pre_suffix, sep) =~~= seq![seq![s@[i as int]] + rest[0]]
                    + rest.subrange(1, rest.len() as int));
                assert(split_on(s@, sep) =~~= fields@.map_values(|f: String| f@) + seq![
                    cur@ + rest[0],
                ] + rest.subrange(1, rest.len() as int));
            }
        }
        i = i + 1;
    }
    let ghost pre_fields = fields@;
    fields.push(cur);
    proof {
        let empty_suffix = s@.subrange(n as int, n as int);
        assert(empty_suffix =~= Seq::<char>::empty());
        let rest = split_on(empty_suffix, sep);
        assert(fields@.map_values(|f: String| f@) =~~= pre_fields.map_values(|f: String| f@).push(
            cur@,
        ));
        assert(split_on(s@, sep) =~~= fields@.map_values(|f: String| f@));
        assert forall|j: int| 0 <= j < fields@.len() implies fields@[j]@ == #[trigger] split_on(
            s@,
            sep,
        )[j] by {
            assert(fields@.map_values(|f: String| f@)[j] == fields@[j]@);
        }
    }
    fields
}

// ---------------------------------------------------------------------------
// Character tables (executable)
// ---------------------------------------------------------------------------

/// The placement character of a piece, or none for the `Null` sentinel.
pub fn char_from_piece(p: Piece) -> (r: Option<char>)
    ensures
        r == if p == Piece::Null {
            None::<char>
        } else {
            Some(piece_char(p))
        },
{
    match p {
        Piece::WhitePawn => Some('P'),
        Piece::WhiteBishop => Some('B'),
        Piece::WhiteKnight => Some('N'),
        Piece::WhiteRook => Some('R'),
        Piece::WhiteQueen => Some('Q'),
        Piece::WhiteKing => Some('K'),
        Piece::BlackPawn => Some('p'),
        Piece::BlackBishop => Some('b'),
        Piece::BlackKnight => Some('n'),
        Piece::BlackRook => Some('r'),
        Piece::BlackQueen => Some('q'),
        Piece::BlackKing => Some('k'),
        Piece::Null => None,
    }
}

/// The piece a placement character denotes, or none.
pub fn piece_from_char(c: char) -> (r: Option<Piece>)
    ensures
        r == char_piece(c),
{
    if c == 'P' {
        Some(Piece::WhitePawn)
    } else if c == 'B' {
        Some(Piece::WhiteBishop)
    } else if c == 'N' {
        Some(Piece::WhiteKnight)
    } else if c == 'R' {
        Some(Piece::WhiteRook)
    } else if c == 'Q' {
        Some(Piece::WhiteQueen)
    } else if c == 'K' {
        Some(Piece::WhiteKing)
    } else if c == 'p' {
        Some(Piece::BlackPawn)
    } else if c == 'b' {
        Some(Piece::BlackBishop)
    } else if c == 'n' {
        Some(Piece::BlackKnight)
    } else if c == 'r' {
        Some(Piece::BlackRook)
    } else if c == 'q' {
        Some(Piece::BlackQueen)
    } else if c == 'k' {
        Some(Piece::BlackKing)
    } else {
        None
    }
}

/// The letter of a file index, or none when out of range.
pub fn char_from_file(file: u8) -> (r: Option<char>)
    ensures
        r == if file < 8 {
            Some(file_char(file as int))
        } else {
            None::<char>
        },
{
    if file == 0 {
        Some('a')
    } else if file == 1 {
        Some('b')
    } else if file == 2 {
        Some('c')
    } else if file == 3 {
        Some('d')
    } else if file == 4 {
        Some('e')
    } else if file == 5 {
        Some('f')
    } else if file == 6 {
        Some('g')
    } else if file == 7 {
        Some('h')
    } else {
        None
    }
}

/// The file index a letter denotes, or none.
pub fn file_from_char(c: char) -> (r: Option<u8>)
    ensures
        char_file(c) matches Some(f) ==> r == Some(f as u8),
        char_file(c) is None ==> r is None,
{
    if c == 'a' {
        Some(0)
    } else if c == 'b' {
        Some(1)
    } else if c == 'c' {
        Some(2)
    } else if c == 'd' {
        Some(3)
    } else if c == 'e' {
        Some(4)
    } else if c == 'f' {
        Some(5)
    } else if c == 'g' {
        Some(6)
    } else if c == 'h' {
        Some(7)
    } else {
        None
    }
}

/// The digit of a rank index (rank 0 prints as '1'), or none when out of
/// range.
pub fn char_from_rank(rank: u8) -> (r: Option<char>)
    ensures
        r == if rank < 8 {
            Some(digit_char(rank as int + 1))
        } else {
            None::<char>
        },
{
    if rank == 0 {
        Some('1')
    } else if rank == 1 {
        Some('2')
    } else if rank == 2 {
        Some('3')
    } else if rank == 3 {
        Some('4')
    } else if rank == 4 {
        Some('5')
    } else if rank == 5 {
        Some('6')
    } else if rank == 6 {
        Some('7')
    } else if rank == 7 {
        Some('8')
    } else {
        None
    }
}

/// The rank index a digit denotes ('1' is rank 0), or none.
pub fn rank_from_char(c: char) -> (r: Option<u8>)
    ensures
        (digit_val(c) matches Some(d) && 1 <= d <= 8) ==> r == Some((digit_val(c).unwrap() - 1) as u8),
        !(digit_val(c) matches Some(d) && 1 <= d <= 8) ==> r is None,
{
    if c == '1' {
        Some(0)
    } else if c == '2' {
        Some(1)
    } else if c == '3' {
        Some(2)
    } else if c == '4' {
        Some(3)
    } else if c == '5' {
        Some(4)
    } else if c == '6' {
        Some(5)
    } else if c == '7' {
        Some(6)
    } else if c == '8' {
        Some(7)
    } else {
        None
    }
}

/// The character of a decimal digit value.
fn digit_to_char(n: u32) -> (r: char)
    requires
        n <= 9,
    ensures
        r == digit_char(n as int),
{
    if n == 1 {
        '1'
    } else if n == 2 {
        '2'
    } else if n == 3 {
        '3'
    } else if n == 4 {
        '4'
    } else if n == 5 {
        '5'
    } else if n == 6 {
        '6'
    } else if n == 7 {
        '7'
    } else if n == 8 {
        '8'
    } else if n == 9 {
        '9'
    } else {
        '0'
    }
}

/// The decimal representation of a number, most significant digit first.
fn dec_string(n: u32) -> (r: String)
    ensures
        r@ == dec_rep(n as int),
    decreases n,
{
    if n < 10 {
        let mut s = String::new();
        push_char(&mut s, digit_to_char(n));
        proof {
            assert(s@ =~= dec_rep(n as int));
        }
        s
    } else {
        let mut s = dec_string(n / 10);
        push_char(&mut s, digit_to_char(n % 10));
        s
    }
}

// ---------------------------------------------------------------------------
// Serialization (executable)
// ---------------------------------------------------------------------------

/// Create the textual field for castle rights from the game state.
pub fn ser_castle_rights(game_state: &GameState) -> (r: String)
    ensures
        r@ == castle_field(game_state.castlerights@),
{
    let mut result = String::new();
    if game_state.castlerights[0] {
        push_char(&mut result, 'K');
    }
    if game_state.castlerights[1] {
        push_char(&mut result, 'Q');
    }
    if game_state.castlerights[2] {
        push_char(&mut result, 'k');
    }
    if game_state.castlerights[3] {
        push_char(&mut result, 'q');
    }
    proof {
        assert(result@ =~= castle_field(game_state.castlerights@));
    }
    result
}

/// Create the textual field for the side to move from the game state.
pub fn ser_side_to_move(game_state: &GameState) -> (r: String)
    ensures
        r@ == side_field(game_state.white_to_move),
{
    let mut result = String::new();
    if game_state.white_to_move {
        push_char(&mut result, 'w');
    } else {
        push_char(&mut result, 'b');
    }
    proof {
        assert(result@ =~= side_field(game_state.white_to_move));
    }
    result
}

/// Create the textual field for the en-passant square from the game state.
pub fn ser_ep_square(game_state: &GameState) -> (r: String)
    requires
        game_state.ep_square matches Some(e) ==> e < 64,
    ensures
        r@ == ep_field(game_state.ep_square),
{
    let mut result = String::new();
    match game_state.ep_square {
        None => {
            push_char(&mut result, '-');
        },
        Some(ep_square) => {
            let file_idx = crate::bits::utils::file_idx(ep_square);
            let rank_idx = crate::bits::utils::rank_idx(ep_square);
            let fc = match char_from_file(file_idx) {
                Some(c) => c,
                None => unreached(),
            };
            let rc = match char_from_rank(rank_idx) {
                Some(c) => c,
                None => unreached(),
            };
            push_char(&mut result, fc);
            push_char(&mut result, rc);
        },
    }
    proof {
        assert(result@ =~= ep_field(game_state.ep_square));
    }
    result
}

/// Create the textual field for the half-move clock from the game state.
pub fn ser_halfmove_clock(game_state: &GameState) -> (r: String)
    ensures
        r@ == dec_rep(game_state.halfmove_clock as int),
{
    dec_string(game_state.halfmove_clock as u32)
}

/// Create the textual field for the full-move clock from the game state.
pub fn ser_fullmove_clock(game_state: &GameState) -> (r: String)
    ensures
        r@ == dec_rep(game_state.fullmove_clock as int),
{
    dec_string(game_state.fullmove_clock)
}

/// Create the placement field for the board position from the game state:
/// 8 slash-separated rank groups, rank 7 first, empty runs as digits.
pub fn ser_bbs(game_state: &GameState) -> (r: String)
    ensures
        r@ == placement_of(game_state.board()),
{
    let ghost board = game_state.board();
    let mut result = String::new();
    let mut rr: usize = 8;
    while rr > 0
        invariant
            rr <= 8,
            board == game_state.board(),
            rr > 0 ==> result@ + placement_rec(board, rr - 1) == placement_of(board),
            rr == 0 ==> result@ == placement_of(board),
        decreases rr,
    {
        let rank: usize = rr - 1;
        let ghost rs = rank_seq(board, rank as int);
        let ghost entry = result@;
        let mut cur_empty_count: u8 = 0;
        let mut file: usize = 0;
        proof {
            assert(placement_rec(board, rank as int) == rle_aux(rs, 0, 0) + (if rank > 0 {
                seq!['/'] + placement_rec(board, rank as int - 1)
            } else {
                Seq::<char>::empty()
            }));
            assert(entry + rle_aux(rs, 0, 0) + (if rank > 0 {
                seq!['/'] + placement_rec(board, rank as int - 1)
            } else {
                Seq::<char>::empty()
            }) =~= entry + placement_rec(board, rank as int));
        }
        while file < 8
            invariant
                file <= 8,
                cur_empty_count <= file,
                rank < 8,
                board == game_state.board(),
                rs == rank_seq(board, rank as int),
                entry + rle_aux(rs, 0, 0) + (if rank > 0 {
                    seq!['/'] + placement_rec(board, rank as int - 1)
                } else {
                    Seq::<char>::empty()
                }) =~= entry + placement_rec(board, rank as int),
                result@ + rle_aux(rs, file as int, cur_empty_count as int) =~= entry + rle_aux(
                    rs,
                    0,
                    0,
                ),
            decreases 8 - file,
        {
            let sq = crate::bits::utils::square_idx(rank as u8, file as u8);
            proof {
                assert(rs[file as int] == board[rank as int * 8 + file as int]);
            }
            match game_state.occupying_piece(sq) {
                Some(piece) => {
                    let piece_char_v = match char_from_piece(piece) {
                        Some(c) => c,
                        None => unreached(),
                    };
                    if cur_empty_count > 0 {
                        push_char(&mut result, digit_to_char(cur_empty_count as u32));
                        cur_empty_count = 0;
                    }
                    push_char(&mut result, piece_char_v);
                    proof {
                        assert(result@ + rle_aux(rs, file + 1, 0) =~= entry + rle_aux(rs, 0, 0));
                    }
                },
                None => {
                    cur_empty_count = cur_empty_count + 1;
                },
            }
            file = file + 1;
        }
        if cur_empty_count > 0 {
            push_char(&mut result, digit_to_char(cur_empty_count as u32));
        }
        proof {
            assert(result@ =~= entry + rle_aux(rs, 0, 0));
        }
        if rank != 0 {
            push_char(&mut result, '/');
        }
        proof {
            if rank != 0 {
                assert(result@ + placement_rec(board, rank as int - 1) =~= entry + rle_aux(rs, 0, 0)
                    + seq!['/'] + placement_rec(board, rank as int - 1));
                assert(result@ + placement_rec(board, rank as int - 1) =~= placement_of(board));
            } else {
                assert(result@ =~= entry + rle_aux(rs, 0, 0));
                assert(result@ =~= placement_of(board));
            }
        }
        rr = rank;
    }
    result
}

/// Make a textual record from the given game state: the six fields joined
/// with single spaces, full-move clock before half-move clock.
#[verifier::rlimit(50)]
pub fn to_fen(game_state: &GameState) -> (r: String)
    requires
        game_state.ep_square matches Some(e) ==> e < 64,
    ensures
        r@ == fen_of(state_data(*game_state)),
{
    let mut result = ser_bbs(game_state);
    push_char(&mut result, ' ');
    let side = ser_side_to_move(game_state);
    result.append(side.as_str());
    push_char(&mut result, ' ');
    let castle = ser_castle_rights(game_state);
    result.append(castle.as_str());
    push_char(&mut result, ' ');
    let ep = ser_ep_square(game_state);
    result.append(ep.as_str());
    push_char(&mut result, ' ');
    let fullmove = ser_fullmove_clock(game_state);
    result.append(fullmove.as_str());
    push_char(&mut result, ' ');
    let halfmove = ser_halfmove_clock(game_state);
    result.append(halfmove.as_str());
    proof {
        let d = state_data(*game_state);
        let p_f = placement_of(d.board);
        let s_f = side_field(d.white_to_move);
        let c_f = castle_field(d.castlerights);
        let e_f = ep_field(d.ep_square);
        let f1_f = dec_rep(d.fullmove_clock as int);
        let f2_f = dec_rep(d.halfmove_clock as int);
        let sp = seq![' '];
        let fs = fen_fields(d);
        let fs1 = fs.drop_first();
        let fs2 = fs1.drop_first();
        let fs3 = fs2.drop_first();
        let fs4 = fs3.drop_first();
        let fs5 = fs4.drop_first();
        assert(fs1 =~~= seq![s_f, c_f, e_f, f1_f, f2_f]);
        assert(fs2 =~~= seq![c_f, e_f, f1_f, f2_f]);
        assert(fs3 =~~= seq![e_f, f1_f, f2_f]);
        assert(fs4 =~~= seq![f1_f, f2_f]);
        assert(fs5 =~~= seq![f2_f]);
        assert(join_fields(fs5) == f2_f);
        assert(join_fields(fs4) == f1_f + sp + join_fields(fs5));
        assert(join_fields(fs3) == e_f + sp + join_fields(fs4));
        assert(join_fields(fs2) == c_f + sp + join_fields(fs3));
        assert(join_fields(fs1) == s_f + sp + join_fields(fs2));
        assert(fen_of(d) == p_f + sp + join_fields(fs1));
        assert(result@ =~= fen_of(d));
    }
    result
}

// ---------------------------------------------------------------------------
// Parsing (executable)
// ---------------------------------------------------------------------------

/// A sequence with a decimal value is all digits.
proof fn lemma_dec_val_digits(s: Seq<char>)
    requires
        dec_val(s) is Some,
    ensures
        forall|j: int| 0 <= j < s.len() ==> (#[trigger] digit_val(s[j])) is Some,
    decreases s.len(),
{
    if s.len() > 1 {
        lemma_dec_val_digits(s.drop_last());
        assert forall|j: int| 0 <= j < s.len() implies (#[trigger] digit_val(s[j])) is Some by {
            if j < s.len() - 1 {
                assert(s.drop_last()[j] == s[j]);
            } else {
                assert(s.last() == s[j]);
            }
        }
    }
}

/// A decimal value is non-negative, and at least the value of any prefix.
proof fn lemma_dec_val_prefix(s: Seq<char>, i: int)
    requires
        dec_val(s) is Some,
        1 <= i <= s.len(),
    ensures
        dec_val(s.subrange(0, i)) is Some,
        0 <= dec_val(s.subrange(0, i)).unwrap() <= dec_val(s).unwrap(),
    decreases s.len(),
{
    if i == s.len() {
        assert(s.subrange(0, i) =~= s);
        if s.len() > 1 {
            lemma_dec_val_prefix(s.drop_last(), i - 1);
            assert(s.drop_last().subrange(0, i - 1) =~= s.drop_last());
        }
    } else {
        assert(s.len() > 1);
        lemma_dec_val_prefix(s.drop_last(), i);
        assert(s.drop_last().subrange(0, i) =~= s.subrange(0, i));
    }
}

/// Parse a field as a decimal number that fits in 32 bits.
fn parse_u32_field(s: &str) -> (r: Option<u32>)
    ensures
        r is Some <==> (dec_val(s@) matches Some(v) && v <= u32::MAX),
        r matches Some(v) ==> dec_val(s@) == Some(v as int),
{
    let chars = str_chars(s);
    let n = chars.len();
    if n == 0 {
        return None;
    }
    let mut acc: u32 = 0;
    let mut i: usize = 0;
    while i < n
        invariant
            n == s@.len(),
            chars@ == s@,
            0 < n,
            i <= n,
            i > 0 ==> dec_val(s@.subrange(0, i as int)) == Some(acc as int),
            i == 0 ==> acc == 0,
        decreases n - i,
    {
        let c = chars[i];
        let d: u32 = if c == '0' {
            0
        } else if c == '1' {
            1
        } else if c == '2' {
            2
        } else if c == '3' {
            3
        } else if c == '4' {
            4
        } else if c == '5' {
            5
        } else if c == '6' {
            6
        } else if c == '7' {
            7
        } else if c == '8' {
            8
        } else if c == '9' {
            9
        } else {
            proof {
                if dec_val(s@) is Some {
                    lemma_dec_val_digits(s@);
                }
            }
            return None;
        };
        proof {
            assert(digit_val(s@[i as int]) == Some(d as int));
        }
        if acc > (u32::MAX - d) / 10 {
            proof {
                let pre = s@.subrange(0, i + 1);
                assert(pre.drop_last() =~= s@.subrange(0, i as int));
                assert(pre.last() == s@[i as int]);
                if i == 0 {
                    assert(dec_val(pre) == Some(d as int));
                    assert(false);
                }
                assert(dec_val(pre) == Some(acc * 10 + d));
                assert(acc * 10 + d > u32::MAX) by (nonlinear_arith)
                    requires
                        acc > (u32::MAX - d) / 10,
                        d <= 9,
                        acc <= u32::MAX,
                ;
                if dec_val(s@) is Some {
                    lemma_dec_val_prefix(s@, i + 1);
                }
            }
            return None;
        }
        proof {
            let pre = s@.subrange(0, i + 1);
            assert(pre.drop_last() =~= s@.subrange(0, i as int));
            assert(pre.last() == s@[i as int]);
            if i == 0 {
                assert(pre.len() == 1);
                assert(dec_val(pre) == digit_val(s@[0]));
            }
        }
        acc = acc * 10 + d;
        i = i + 1;
    }
    proof {
        assert(s@.subrange(0, n as int) =~= s@);
    }
    Some(acc)
}

/// Parse a field as a decimal number that fits in 8 bits.
fn parse_u8_field(s: &str) -> (r: Option<u8>)
    ensures
        r is Some <==> (dec_val(s@) matches Some(v) && v <= 255),
        r matches Some(v) ==> dec_val(s@) == Some(v as int),
{
    match parse_u32_field(s) {
        Some(v) => if v <= 255 {
            Some(v as u8)
        } else {
            None
        },
        None => None,
    }
}

/// Get the side-to-move flag from the textual field: "w" or "b" only.
pub fn white_to_move_from(to_move_str: &str) -> (r: Result<bool, String>)
    ensures
        parse_side(to_move_str@) matches Some(b) ==> r == Ok::<bool, String>(b),
        parse_side(to_move_str@) is None ==> r is Err,
{
    let n = to_move_str.unicode_len();
    if n == 1 {
        let c = to_move_str.get_char(0);
        proof {
            if c == 'w' {
                assert(to_move_str@ =~= seq!['w']);
            }
            if c == 'b' {
                assert(to_move_str@ =~= seq!['b']);
            }
        }
        if c == 'w' {
            return Ok(true);
        }
        if c == 'b' {
            return Ok(false);
        }
    }
    proof {
        assert(!(to_move_str@ =~= seq!['w']));
        assert(!(to_move_str@ =~= seq!['b']));
    }
    Err("Invalid to move field.".to_owned())
}

/// Get the castle-rights flags from the textual field: a flag is set exactly
/// when its character occurs.
pub fn castlerights_from(castle_str: &str) -> (r: [bool; 4])
    ensures
        r@ == parse_castle(castle_str@),
{
    let chars = str_chars(castle_str);
    let n = chars.len();
    let mut wk = false;
    let mut wq = false;
    let mut bk = false;
    let mut bq = false;
    let mut i: usize = 0;
    while i < n
        invariant
            n == castle_str@.len(),
            chars@ == castle_str@,
            i <= n,
            wk ==> castle_str@.contains('K'),
            !wk ==> forall|j: int| 0 <= j < i ==> castle_str@[j] != 'K',
            wq ==> castle_str@.contains('Q'),
            !wq ==> forall|j: int| 0 <= j < i ==> castle_str@[j] != 'Q',
            bk ==> castle_str@.contains('k'),
            !bk ==> forall|j: int| 0 <= j < i ==> castle_str@[j] != 'k',
            bq ==> castle_str@.contains('q'),
            !bq ==> forall|j: int| 0 <= j < i ==> castle_str@[j] != 'q',
        decreases n - i,
    {
        let c = chars[i];
        proof {
            assert(castle_str@[i as int] == c);
        }
        if c == 'K' {
            wk = true;
        } else if c == 'Q' {
            wq = true;
        } else if c == 'k' {
            bk = true;
        } else if c == 'q' {
            bq = true;
        }
        i = i + 1;
    }
    let r = [wk, wq, bk, bq];
    proof {
        if !wk {
            assert(!castle_str@.contains('K'));
        }
        if !wq {
            assert(!castle_str@.contains('Q'));
        }
        if !bk {
            assert(!castle_str@.contains('k'));
        }
        if !bq {
            assert(!castle_str@.contains('q'));
        }
        assert(r@ =~= parse_castle(castle_str@));
    }
    r
}

/// Get the en-passant target square from the textual field: '-' means none,
/// else a file letter followed by a rank digit.
pub fn ep_square_from(ep_str: &str) -> (r: Result<Option<Square>, String>)
    ensures
        parse_ep(ep_str@) matches Some(e) ==> r == Ok::<Option<Square>, String>(e) && (e
            matches Some(sq) ==> sq < 64),
        parse_ep(ep_str@) is None ==> r is Err,
{
    let n = ep_str.unicode_len();
    if n == 1 && ep_str.get_char(0) == '-' {
        proof {
            assert(ep_str@ =~= seq!['-']);
        }
        return Ok(None);
    }
    proof {
        assert(!(ep_str@ =~= seq!['-']));
    }
    if n == 2 {
        let file = file_from_char(ep_str.get_char(0));
        let rank = rank_from_char(ep_str.get_char(1));
        match (file, rank) {
            (Some(f), Some(rk)) => {
                let sq = crate::bits::utils::square_idx(rk, f);
                return Ok(Some(sq));
            },
            _ => {
                return Err("Invalid en passant field.".to_owned());
            },
        }
    }
    Err("Invalid en passant field.".to_owned())
}

/// When every rank group expands, the board concatenates them, the last
/// group (rank 0) first.
proof fn lemma_cat_ranks(groups: Seq<Seq<char>>, i: int)
    requires
        groups.len() == 8,
        0 <= i <= 8,
        forall|j: int| 8 - i <= j < 8 ==> (#[trigger] expand_rank(groups[j])) is Some,
    ensures
        cat_ranks(groups, i) is Some,
        cat_ranks(groups, i).unwrap().len() == 8 * i,
        forall|s: int|
            0 <= s < 8 * i ==> cat_ranks(groups, i).unwrap()[s] == expand_rank(
                groups[8 - 1 - s / 8],
            ).unwrap()[s % 8],
    decreases i,
{
    if i > 0 {
        lemma_cat_ranks(groups, i - 1);
        let acc = cat_ranks(groups, i - 1).unwrap();
        let rk = expand_rank(groups[8 - i]).unwrap();
        assert(rk.len() == 8);
        assert forall|s: int| 0 <= s < 8 * i implies cat_ranks(groups, i).unwrap()[s]
            == expand_rank(groups[8 - 1 - s / 8]).unwrap()[s % 8] by {
            if s < 8 * (i - 1) {
                assert((acc + rk)[s] == acc[s]);
            } else {
                assert(s / 8 == i - 1) by (nonlinear_arith)
                    requires
                        8 * (i - 1) <= s < 8 * i,
                ;
                assert(s % 8 == s - 8 * (i - 1)) by (nonlinear_arith)
                    requires
                        8 * (i - 1) <= s < 8 * i,
                ;
                assert((acc + rk)[s] == rk[s - 8 * (i - 1)]);
            }
        }
    }
}

/// One failing rank group makes the whole placement fail.
proof fn lemma_cat_ranks_none(groups: Seq<Seq<char>>, j: int, i: int)
    requires
        groups.len() == 8,
        0 <= j < 8,
        expand_rank(groups[j]) is None,
        8 - i <= j,
        0 <= i <= 8,
    ensures
        cat_ranks(groups, i) is None,
    decreases i,
{
    if 8 - i < j {
        lemma_cat_ranks_none(groups, j, i - 1);
    }
}

/// Expand one rank group into its 8 occupants, or none when the group is
/// malformed or does not cover exactly 8 squares.
fn expand_rank_str(g: &str) -> (r: Option<Vec<Piece>>)
    ensures
        r is Some <==> expand_rank(g@) is Some,
        r matches Some(v) ==> Some(v@) == expand_rank(g@) && v@.len() == 8,
{
    let chars = str_chars(g);
    let n = chars.len();
    let mut out: Vec<Piece> = Vec::new();
    let mut j: usize = 0;
    proof {
        assert(g@.subrange(0, n as int) =~= g@);
        if expand_front(g@) is Some {
            assert(out@ + expand_front(g@).unwrap() =~= expand_front(g@).unwrap());
        }
    }
    while j < n
        invariant
            n == g@.len(),
            chars@ == g@,
            j <= n,
            out@.len() <= 8,
            ({
                let rest = expand_front(g@.subrange(j as int, n as int));
                expand_front(g@) == if rest is Some {
                    Some(out@ + rest.unwrap())
                } else {
                    None::<Seq<Piece>>
                }
            }),
        decreases n - j,
    {
        let ghost pre_suffix = g@.subrange(j as int, n as int);
        let ghost post_suffix = g@.subrange(j + 1, n as int);
        proof {
            assert(pre_suffix.len() > 0);
            assert(pre_suffix[0] == g@[j as int]);
            assert(pre_suffix.subrange(1, pre_suffix.len() as int) =~= post_suffix);
        }
        let c = chars[j];
        let run: u8 = if c == '1' {
            1
        } else if c == '2' {
            2
        } else if c == '3' {
            3
        } else if c == '4' {
            4
        } else if c == '5' {
            5
        } else if c == '6' {
            6
        } else if c == '7' {
            7
        } else if c == '8' {
            8
        } else {
            0
        };
        if run >= 1 {
            proof {
                assert(digit_val(g@[j as int]) == Some(run as int));
            }
            if out.len() + (run as usize) > 8 {
                proof {
                    if expand_front(g@) is Some {
                        let rem = expand_front(pre_suffix).unwrap();
                        assert(rem == nulls(run as int) + expand_front(post_suffix).unwrap());
                        assert(expand_front(g@).unwrap().len() > 8);
                    }
                }
                return None;
            }
            let ghost out_entry = out@;
            let mut k: usize = 0;
            while k < run as usize
                invariant
                    k <= run as usize,
                    out@ =~= out_entry + nulls(k as int),
                decreases run as usize - k,
            {
                out.push(Piece::Null);
                proof {
                    assert(out@ =~= out_entry + nulls(k + 1));
                }
                k = k + 1;
            }
            proof {
                if expand_front(post_suffix) is Some {
                    let rem2 = expand_front(post_suffix).unwrap();
                    assert(out_entry + (nulls(run as int) + rem2) =~= out@ + rem2);
                }
            }
        } else {
            match piece_from_char(c) {
                Some(p) => {
                    if out.len() >= 8 {
                        proof {
                            if expand_front(g@) is Some {
                                let rem = expand_front(pre_suffix).unwrap();
                                assert(rem == seq![p] + expand_front(post_suffix).unwrap());
                                assert(expand_front(g@).unwrap().len() > 8);
                            }
                        }
                        return None;
                    }
                    let ghost out_entry = out@;
                    out.push(p);
                    proof {
                        if expand_front(post_suffix) is Some {
                            let rem2 = expand_front(post_suffix).unwrap();
                            assert(out_entry + (seq![p] + rem2) =~= out@ + rem2);
                        }
                    }
                },
                None => {
                    proof {
                        assert(expand_front(pre_suffix) is None);
                    }
                    return None;
                },
            }
        }
        j = j + 1;
    }
    proof {
        let empty_suffix = g@.subrange(n as int, n as int);
        assert(empty_suffix =~= Seq::<char>::empty());
        assert(expand_front(empty_suffix) == Some(Seq::<Piece>::empty()));
        assert(out@ + Seq::<Piece>::empty() =~= out@);
    }
    if out.len() == 8 {
        Some(out)
    } else {
        None
    }
}

/// Add the pieces to the board from the placement field. Returns whether
/// the field was well formed; on success the board holds exactly the
/// occupants the field describes.
pub fn add_pieces(pos_str: &str, game_state: &mut GameState) -> (ok: bool)
    requires
        old(game_state).wf(),
        forall|s: int| 0 <= s < 64 ==> old(game_state).board()[s] == Piece::Null,
    ensures
        final(game_state).wf(),
        final(game_state).white_to_move == old(game_state).white_to_move,
        final(game_state).ep_square == old(game_state).ep_square,
        final(game_state).halfmove_clock == old(game_state).halfmove_clock,
        final(game_state).fullmove_clock == old(game_state).fullmove_clock,
        final(game_state).castlerights == old(game_state).castlerights,
        ok <==> parse_placement(pos_str@) is Some,
        ok ==> Some(final(game_state).board()) == parse_placement(pos_str@),
{
    let groups = split_string(pos_str, '/');
    let ghost gview = split_on(pos_str@, '/');
    if groups.len() != 8 {
        return false;
    }
    let mut i: usize = 0;
    while i < 8
        invariant
            groups@.len() == 8,
            gview == split_on(pos_str@, '/'),
            gview.len() == 8,
            forall|j: int| 0 <= j < 8 ==> groups@[j]@ == #[trigger] gview[j],
            i <= 8,
            game_state.wf(),
            game_state.white_to_move == old(game_state).white_to_move,
            game_state.ep_square == old(game_state).ep_square,
            game_state.halfmove_clock == old(game_state).halfmove_clock,
            game_state.fullmove_clock == old(game_state).fullmove_clock,
            game_state.castlerights == old(game_state).castlerights,
            forall|j: int| 0 <= j < i ==> (#[trigger] expand_rank(gview[j])) is Some,
            forall|s: int|
                0 <= s < 64 ==> #[trigger] game_state.board()[s] == if s >= (8 - i) * 8 {
                    expand_rank(gview[8 - 1 - s / 8]).unwrap()[s % 8]
                } else {
                    Piece::Null
                },
        decreases 8 - i,
    {
        let rank: usize = 7 - i;
        match expand_rank_str(groups[i].as_str()) {
            None => {
                proof {
                    lemma_cat_ranks_none(gview, i as int, 8);
                }
                return false;
            },
            Some(v) => {
                let ghost rk = expand_rank(gview[i as int]).unwrap();
                let mut f: usize = 0;
                while f < 8
                    invariant
                        f <= 8,
                        i < 8,
                        rank == 7 - i,
                        v@.len() == 8,
                        Some(v@) == expand_rank(gview[i as int]),
                        rk == expand_rank(gview[i as int]).unwrap(),
                        gview.len() == 8,
                        game_state.wf(),
                        game_state.white_to_move == old(game_state).white_to_move,
                        game_state.ep_square == old(game_state).ep_square,
                        game_state.halfmove_clock == old(game_state).halfmove_clock,
                        game_state.fullmove_clock == old(game_state).fullmove_clock,
                        game_state.castlerights == old(game_state).castlerights,
                        forall|s: int|
                            0 <= s < 64 ==> #[trigger] game_state.board()[s] == if s >= (8 - i)
                                * 8 {
                                expand_rank(gview[8 - 1 - s / 8]).unwrap()[s % 8]
                            } else if s >= rank * 8 && s < rank * 8 + f {
                                rk[s - rank * 8]
                            } else {
                                Piece::Null
                            },
                    decreases 8 - f,
                {
                    proof {
                        assert(8 - 1 - (rank * 8 + f) / 8 == i && (rank * 8 + f) % 8 == f)
                            by (nonlinear_arith)
                            requires
                                rank == 7 - i,
                                0 <= i < 8,
                                0 <= f < 8,
                        ;
                    }
                    let sq = crate::bits::utils::square_idx(rank as u8, f as u8);
                    let piece = v[f];
                    if !matches!(piece, Piece::Null) {
                        game_state.add_piece(piece, sq);
                    }
                    proof {
                        assert forall|s: int| 0 <= s < 64 implies #[trigger] game_state.board()[s]
                            == if s >= (8 - i) * 8 {
                            expand_rank(gview[8 - 1 - s / 8]).unwrap()[s % 8]
                        } else if s >= rank * 8 && s < rank * 8 + f + 1 {
                            rk[s - rank * 8]
                        } else {
                            Piece::Null
                        } by {
                            assert((8 - i) * 8 == rank * 8 + 8);
                        }
                    }
                    f = f + 1;
                }
            },
        }
        proof {
            assert forall|s: int| 0 <= s < 64 implies #[trigger] game_state.board()[s] == if s >= (
            8 - (i + 1)) * 8 {
                expand_rank(gview[8 - 1 - s / 8]).unwrap()[s % 8]
            } else {
                Piece::Null
            } by {
                if s >= rank * 8 && s < rank * 8 + 8 {
                    assert(8 - 1 - s / 8 == i && s % 8 == s - rank * 8) by (nonlinear_arith)
                        requires
                            rank == 7 - i,
                            0 <= i < 8,
                            rank * 8 <= s < rank * 8 + 8,
                    ;
                }
            }
        }
        i = i + 1;
    }
    proof {
        lemma_cat_ranks(gview, 8);
        assert(game_state.board() =~= cat_ranks(gview, 8).unwrap());
    }
    true
}

/// Make a game state from the given textual record, or none when the record
/// is malformed.
pub fn parse_fen(fen: &String) -> (r: Option<GameState>)
    ensures
        r is Some <==> parse_fen_spec(fen@) is Some,
        r matches Some(gs) ==> gs.wf() && parse_fen_spec(fen@) == Some(state_data(gs)),
{
    let fields = split_string(fen.as_str(), ' ');
    if fields.len() != 6 {
        return None;
    }
    let white_to_move = match white_to_move_from(fields[1].as_str()) {
        Ok(b) => b,
        Err(_) => {
            return None;
        },
    };
    let castlerights = castlerights_from(fields[2].as_str());
    let ep_square = match ep_square_from(fields[3].as_str()) {
        Ok(e) => e,
        Err(_) => {
            return None;
        },
    };
    let fullmove = match parse_u32_field(fields[4].as_str()) {
        Some(v) => v,
        None => {
            return None;
        },
    };
    let halfmove = match parse_u8_field(fields[5].as_str()) {
        Some(v) => v,
        None => {
            return None;
        },
    };
    let mut game_state = GameState::new(
        [0; 12],
        white_to_move,
        ep_square,
        halfmove,
        fullmove,
        castlerights,
    );
    if !add_pieces(fields[0].as_str(), &mut game_state) {
        return None;
    }
    proof {
        let d = parse_fen_spec(fen@).unwrap();
        assert(d =~~= state_data(game_state));
    }
    Some(game_state)
}

// ---------------------------------------------------------------------------
// Round trip: parsing is the left inverse of serialization
// ---------------------------------------------------------------------------

/// A concatenation contains a character exactly when one of its parts does.
proof fn lemma_contains_concat(a: Seq<char>, b: Seq<char>, c: char)
    ensures
        (a + b).contains(c) <==> a.contains(c) || b.contains(c),
{
    if a.contains(c) {
        let j = choose|j: int| 0 <= j < a.len() && a[j] == c;
        assert((a + b)[j] == c);
    }
    if b.contains(c) {
        let j = choose|j: int| 0 <= j < b.len() && b[j] == c;
        assert((a + b)[a.len() + j] == c);
    }
    if (a + b).contains(c) {
        let j = choose|j: int| 0 <= j < (a + b).len() && (a + b)[j] == c;
        if j < a.len() {
            assert(a[j] == c);
        } else {
            assert(b[j - a.len()] == c);
        }
    }
}

/// A sequence without the separator splits into itself alone.
proof fn lemma_split_no_sep(s: Seq<char>, sep: char)
    requires
        forall|j: int| 0 <= j < s.len() ==> s[j] != sep,
    ensures
        split_on(s, sep) =~~= seq![s],
    decreases s.len(),
{
    if s.len() > 0 {
        lemma_split_no_sep(s.subrange(1, s.len() as int), sep);
        assert(seq![s[0]] + s.subrange(1, s.len() as int) =~= s);
        assert(split_on(s, sep) =~~= seq![s]);
    }
}

/// Splitting peels a separator-free head field off the front.
proof fn lemma_split_prepend(a: Seq<char>, b: Seq<char>, sep: char)
    requires
        forall|j: int| 0 <= j < a.len() ==> a[j] != sep,
    ensures
        split_on(a + seq![sep] + b, sep) =~~= seq![a] + split_on(b, sep),
    decreases a.len(),
{
    let s = a + seq![sep] + b;
    if a.len() == 0 {
        assert(s[0] == sep);
        assert(s.subrange(1, s.len() as int) =~= b);
        assert(split_on(s, sep) =~~= seq![a] + split_on(b, sep));
    } else {
        let a1 = a.subrange(1, a.len() as int);
        lemma_split_prepend(a1, b, sep);
        assert(s[0] == a[0]);
        assert(s[0] != sep);
        assert(s.subrange(1, s.len() as int) =~= a1 + seq![sep] + b);
        let rest = split_on(a1 + seq![sep] + b, sep);
        assert(rest =~~= seq![a1] + split_on(b, sep));
        assert(seq![a[0]] + rest[0] =~= a);
        assert(rest.subrange(1, rest.len() as int) =~~= split_on(b, sep));
        assert(split_on(s, sep) =~~= seq![a] + split_on(b, sep));
    }
}

/// Every character of a rank group is a piece letter or a run digit — never
/// a space, a slash, or the '-' placeholder.
proof fn lemma_rle_aux_chars(s: Seq<Piece>, i: int, pending: int)
    ensures
        forall|j: int|
            0 <= j < rle_aux(s, i, pending).len() ==> #[trigger] rle_aux(s, i, pending)[j] != ' '
                && rle_aux(s, i, pending)[j] != '/',
    decreases s.len() - i,
{
    let out = rle_aux(s, i, pending);
    if i < 0 || i >= s.len() {
        if pending > 0 {
            assert(out[0] == digit_char(pending));
        }
        assert forall|j: int| 0 <= j < out.len() implies #[trigger] out[j] != ' ' && out[j]
            != '/' by {
            assert(out[j] == digit_char(pending));
        }
    } else if s[i] == Piece::Null {
        lemma_rle_aux_chars(s, i + 1, pending + 1);
        assert(out == rle_aux(s, i + 1, pending + 1));
        assert forall|j: int| 0 <= j < out.len() implies #[trigger] out[j] != ' ' && out[j]
            != '/' by {
            assert(out[j] == rle_aux(s, i + 1, pending + 1)[j]);
        }
    } else {
        lemma_rle_aux_chars(s, i + 1, 0);
        let pre = if pending > 0 {
            seq![digit_char(pending)]
        } else {
            Seq::<char>::empty()
        };
        let rec = rle_aux(s, i + 1, 0);
        assert forall|j: int| 0 <= j < out.len() implies #[trigger] out[j] != ' ' && out[j]
            != '/' by {
            if j < pre.len() {
                assert(out[j] == digit_char(pending));
            } else if j == pre.len() {
                assert(out[j] == piece_char(s[i]));
            } else {
                assert(out[j] == rec[j - pre.len() - 1]);
            }
        }
    }
}

/// No character of the placement field is a space.
proof fn lemma_placement_rec_chars(board: Seq<Piece>, r: int)
    ensures
        forall|j: int|
            0 <= j < placement_rec(board, r).len() ==> #[trigger] placement_rec(board, r)[j] != ' ',
    decreases r,
{
    let out = placement_rec(board, r);
    if r <= 0 {
        lemma_rle_aux_chars(rank_seq(board, 0), 0, 0);
        assert forall|j: int| 0 <= j < out.len() implies #[trigger] out[j] != ' ' by {
            assert(out[j] == rle_aux(rank_seq(board, 0), 0, 0)[j]);
        }
    } else {
        lemma_rle_aux_chars(rank_seq(board, r), 0, 0);
        lemma_placement_rec_chars(board, r - 1);
        let head = rle_rank(rank_seq(board, r));
        let tail = placement_rec(board, r - 1);
        assert forall|j: int| 0 <= j < out.len() implies #[trigger] out[j] != ' ' by {
            if j < head.len() {
                assert(out[j] == head[j]);
            } else if j == head.len() {
                assert(out[j] == '/');
            } else {
                assert(out[j] == tail[j - head.len() - 1]);
            }
        }
    }
}

/// Every character of a decimal representation is a digit.
proof fn lemma_dec_rep_digits(n: int)
    ensures
        rle_digit_only(dec_rep(n)),
        dec_rep(n).len() >= 1,
    decreases n,
{
    if n >= 10 {
        lemma_dec_rep_digits(n / 10);
        assert forall|j: int| 0 <= j < dec_rep(n).len() implies (#[trigger] digit_val(
            dec_rep(n)[j],
        )) is Some by {
            if j < dec_rep(n).len() - 1 {
                assert(dec_rep(n)[j] == dec_rep(n / 10)[j]);
            }
        }
    }
}

/// All characters are digits.
pub open spec fn rle_digit_only(s: Seq<char>) -> bool {
    forall|j: int| 0 <= j < s.len() ==> (#[trigger] digit_val(s[j])) is Some
}

/// Expanding the run-length encoding of a rank suffix recovers the pending
/// empty squares followed by that suffix.
proof fn lemma_expand_of_rle(s: Seq<Piece>, i: int, pending: int)
    requires
        s.len() == 8,
        0 <= i <= 8,
        0 <= pending <= i,
    ensures
        expand_front(rle_aux(s, i, pending)) == Some(nulls(pending) + s.subrange(i, 8)),
    decreases 8 - i,
{
    if i >= 8 {
        if pending > 0 {
            let out = rle_aux(s, i, pending);
            assert(out =~= seq![digit_char(pending)]);
            assert(digit_val(digit_char(pending)) == Some(pending));
            assert(out.subrange(1, 1) =~= Seq::<char>::empty());
            assert(expand_front(out.subrange(1, 1)) == Some(Seq::<Piece>::empty()));
            assert(expand_front(out) == Some(nulls(pending) + Seq::<Piece>::empty()));
            assert(nulls(pending) + Seq::<Piece>::empty() =~= nulls(pending) + s.subrange(i, 8));
        } else {
            assert(rle_aux(s, i, pending) =~= Seq::<char>::empty());
            assert(nulls(0) + s.subrange(8, 8) =~= Seq::<Piece>::empty());
        }
    } else if s[i] == Piece::Null {
        lemma_expand_of_rle(s, i + 1, pending + 1);
        assert(nulls(pending + 1) + s.subrange(i + 1, 8) =~= nulls(pending) + s.subrange(i, 8));
    } else {
        lemma_expand_of_rle(s, i + 1, 0);
        let rec = rle_aux(s, i + 1, 0);
        let pc = piece_char(s[i]);
        let with_piece = seq![pc] + rec;
        assert(char_piece(pc) == Some(s[i]));
        assert(digit_val(pc) is None);
        // Expanding the piece character followed by the encoded tail.
        assert(with_piece[0] == pc);
        assert(with_piece.subrange(1, with_piece.len() as int) =~= rec);
        assert(expand_front(rec) == Some(nulls(0) + s.subrange(i + 1, 8)));
        assert(expand_front(with_piece) == Some(
            seq![s[i]] + (nulls(0) + s.subrange(i + 1, 8)),
        ));
        if pending > 0 {
            let out = rle_aux(s, i, pending);
            assert(out =~= seq![digit_char(pending)] + with_piece);
            assert(out[0] == digit_char(pending));
            assert(digit_val(digit_char(pending)) == Some(pending));
            assert(out.subrange(1, out.len() as int) =~= with_piece);
            assert(expand_front(out) == Some(
                nulls(pending) + (seq![s[i]] + (nulls(0) + s.subrange(i + 1, 8))),
            ));
            assert(nulls(pending) + (seq![s[i]] + (nulls(0) + s.subrange(i + 1, 8))) =~= nulls(
                pending,
            ) + s.subrange(i, 8));
        } else {
            let out = rle_aux(s, i, pending);
            assert(out =~= with_piece);
            assert(seq![s[i]] + (nulls(0) + s.subrange(i + 1, 8)) =~= nulls(0) + s.subrange(i, 8));
        }
    }
}

/// Parsing the run-length encoding of a full rank recovers the rank.
proof fn lemma_rank_round_trip(s: Seq<Piece>)
    requires
        s.len() == 8,
    ensures
        expand_rank(rle_rank(s)) == Some(s),
{
    lemma_expand_of_rle(s, 0, 0);
    assert(nulls(0) + s.subrange(0, 8) =~= s);
}

/// Splitting the placement of ranks `r`..0 yields their `r + 1` groups.
proof fn lemma_placement_split(board: Seq<Piece>, r: int)
    requires
        0 <= r <= 7,
    ensures
        split_on(placement_rec(board, r), '/') =~~= Seq::new(
            (r + 1) as nat,
            |j: int| rle_rank(rank_seq(board, r - j)),
        ),
    decreases r,
{
    lemma_rle_aux_chars(rank_seq(board, r), 0, 0);
    if r == 0 {
        lemma_split_no_sep(rle_rank(rank_seq(board, 0)), '/');
    } else {
        lemma_placement_split(board, r - 1);
        lemma_split_prepend(rle_rank(rank_seq(board, r)), placement_rec(board, r - 1), '/');
    }
}

/// Parsing the placement field of a board recovers the board.
proof fn lemma_placement_round_trip(board: Seq<Piece>)
    requires
        board.len() == 64,
    ensures
        parse_placement(placement_of(board)) == Some(board),
{
    lemma_placement_split(board, 7);
    let groups = split_on(placement_of(board), '/');
    assert(groups.len() == 8);
    assert forall|j: int| 0 <= j < 8 implies (#[trigger] expand_rank(groups[j])) == Some(
        rank_seq(board, 7 - j),
    ) by {
        assert(groups[j] == rle_rank(rank_seq(board, 7 - j)));
        lemma_rank_round_trip(rank_seq(board, 7 - j));
    }
    lemma_cat_ranks(groups, 8);
    let cat = cat_ranks(groups, 8).unwrap();
    assert forall|s: int| 0 <= s < 64 implies cat[s] == board[s] by {
        assert(cat[s] == expand_rank(groups[8 - 1 - s / 8]).unwrap()[s % 8]);
        assert(expand_rank(groups[7 - s / 8]).unwrap() == rank_seq(board, 7 - (7 - s / 8)));
        assert(rank_seq(board, s / 8)[s % 8] == board[(s / 8) * 8 + s % 8]);
        assert((s / 8) * 8 + s % 8 == s) by (nonlinear_arith)
            requires
                0 <= s,
        ;
    }
    assert(cat =~= board);
}

/// Parsing a decimal representation recovers the number.
proof fn lemma_dec_round_trip(n: int)
    requires
        n >= 0,
    ensures
        dec_val(dec_rep(n)) == Some(n),
    decreases n,
{
    if n < 10 {
        assert(dec_rep(n).len() == 1);
    } else {
        lemma_dec_round_trip(n / 10);
        lemma_dec_rep_digits(n / 10);
        let s = dec_rep(n);
        assert(s.len() > 1);
        assert(s.drop_last() =~= dec_rep(n / 10));
        assert(s.last() == digit_char(n % 10));
        assert(dec_val(s) == Some((n / 10) * 10 + n % 10));
        assert((n / 10) * 10 + n % 10 == n) by (nonlinear_arith)
            requires
                n >= 0,
        ;
    }
}

/// A singleton contains exactly its element.
proof fn lemma_singleton_contains(x: char, c: char)
    ensures
        seq![x].contains(c) <==> x == c,
{
    if x == c {
        assert(seq![x][0] == c);
    }
    if seq![x].contains(c) {
        let j = choose|j: int| 0 <= j < 1 && seq![x][j] == c;
        assert(seq![x][j] == x);
    }
}

/// Parsing the castling-rights field recovers the four flags.
proof fn lemma_castle_round_trip(cr: Seq<bool>)
    requires
        cr.len() == 4,
    ensures
        parse_castle(castle_field(cr)) =~= cr,
{
    let a = if cr[0] {
        seq!['K']
    } else {
        Seq::<char>::empty()
    };
    let b = if cr[1] {
        seq!['Q']
    } else {
        Seq::<char>::empty()
    };
    let c = if cr[2] {
        seq!['k']
    } else {
        Seq::<char>::empty()
    };
    let d = if cr[3] {
        seq!['q']
    } else {
        Seq::<char>::empty()
    };
    let field = castle_field(cr);
    assert(field == a + b + c + d);
    assert forall|ch: char|
        ch == 'K' || ch == 'Q' || ch == 'k' || ch == 'q' implies (#[trigger] field.contains(ch)) == (
    a.contains(ch) || b.contains(ch) || c.contains(ch) || d.contains(ch)) by {
        lemma_contains_concat(a + b + c, d, ch);
        lemma_contains_concat(a + b, c, ch);
        lemma_contains_concat(a, b, ch);
    }
    lemma_singleton_contains('K', 'K');
    lemma_singleton_contains('Q', 'K');
    lemma_singleton_contains('k', 'K');
    lemma_singleton_contains('q', 'K');
    lemma_singleton_contains('K', 'Q');
    lemma_singleton_contains('Q', 'Q');
    lemma_singleton_contains('k', 'Q');
    lemma_singleton_contains('q', 'Q');
    lemma_singleton_contains('K', 'k');
    lemma_singleton_contains('Q', 'k');
    lemma_singleton_contains('k', 'k');
    lemma_singleton_contains('q', 'k');
    lemma_singleton_contains('K', 'q');
    lemma_singleton_contains('Q', 'q');
    lemma_singleton_contains('k', 'q');
    lemma_singleton_contains('q', 'q');
}

/// No character of the castling-rights field is a space.
proof fn lemma_castle_field_chars(cr: Seq<bool>)
    requires
        cr.len() == 4,
    ensures
        forall|j: int|
            0 <= j < castle_field(cr).len() ==> #[trigger] castle_field(cr)[j] != ' ',
{
    let a = if cr[0] {
        seq!['K']
    } else {
        Seq::<char>::empty()
    };
    let b = if cr[1] {
        seq!['Q']
    } else {
        Seq::<char>::empty()
    };
    let c = if cr[2] {
        seq!['k']
    } else {
        Seq::<char>::empty()
    };
    let d = if cr[3] {
        seq!['q']
    } else {
        Seq::<char>::empty()
    };
    let field = castle_field(cr);
    assert forall|j: int| 0 <= j < field.len() implies #[trigger] field[j] != ' ' by {
        if j < a.len() {
            assert(field[j] == 'K');
        } else if j < a.len() + b.len() {
            assert(field[j] == (a + b)[j]);
            assert(field[j] == 'Q');
        } else if j < a.len() + b.len() + c.len() {
            assert(field[j] == (a + b + c)[j]);
            assert(field[j] == 'k');
        } else {
            assert(field[j] == 'q');
        }
    }
}

/// Parsing the en-passant field recovers the target square.
proof fn lemma_ep_round_trip(ep: Option<u8>)
    requires
        ep matches Some(e) ==> e < 64,
    ensures
        parse_ep(ep_field(ep)) == Some(ep),
{
    match ep {
        None => {
            assert(ep_field(ep) =~= seq!['-']);
        },
        Some(e) => {
            let field = ep_field(ep);
            let f = e as int % 8;
            let d = e as int / 8 + 1;
            assert(field.len() == 2);
            assert(!(field =~= seq!['-']));
            assert(char_file(field[0]) == Some(f));
            assert(digit_val(field[1]) == Some(d));
            assert(((d - 1) * 8) + f == e) by (nonlinear_arith)
                requires
                    f == e as int % 8,
                    d == e as int / 8 + 1,
                    0 <= e < 64,
            ;
        },
    }
}

/// Splitting a space-joined list of space-free fields recovers the list.
proof fn lemma_split_join(fs: Seq<Seq<char>>)
    requires
        fs.len() >= 1,
        forall|i: int, j: int|
            0 <= i < fs.len() && 0 <= j < fs[i].len() ==> #[trigger] fs[i][j] != ' ',
    ensures
        split_on(join_fields(fs), ' ') =~~= fs,
    decreases fs.len(),
{
    if fs.len() == 1 {
        lemma_split_no_sep(fs[0], ' ');
    } else {
        lemma_split_join(fs.drop_first());
        lemma_split_prepend(fs[0], join_fields(fs.drop_first()), ' ');
        assert(split_on(join_fields(fs), ' ') =~~= seq![fs[0]] + fs.drop_first());
        assert(seq![fs[0]] + fs.drop_first() =~~= fs);
    }
}

/// Splitting a serialized record on spaces yields exactly its six fields.
proof fn lemma_fen_fields(d: FenData)
    requires
        fen_data_valid(d),
    ensures
        split_on(fen_of(d), ' ') =~~= fen_fields(d),
{
    let fs = fen_fields(d);
    let s = side_field(d.white_to_move);
    let e = ep_field(d.ep_square);
    let f1 = dec_rep(d.fullmove_clock as int);
    let f2 = dec_rep(d.halfmove_clock as int);

    // None of the six fields contains a space.
    lemma_placement_rec_chars(d.board, 7);
    lemma_castle_field_chars(d.castlerights);
    lemma_dec_rep_digits(d.fullmove_clock as int);
    lemma_dec_rep_digits(d.halfmove_clock as int);
    assert(forall|j: int| 0 <= j < s.len() ==> s[j] != ' ');
    assert(forall|j: int| 0 <= j < e.len() ==> e[j] != ' ');
    assert forall|j: int| 0 <= j < f1.len() implies f1[j] != ' ' by {
        assert(digit_val(f1[j]) is Some);
    }
    assert forall|j: int| 0 <= j < f2.len() implies f2[j] != ' ' by {
        assert(digit_val(f2[j]) is Some);
    }
    assert forall|i: int, j: int|
        0 <= i < fs.len() && 0 <= j < fs[i].len() implies #[trigger] fs[i][j] != ' ' by {
        if i == 0 {
            assert(fs[i][j] == placement_of(d.board)[j]);
        } else if i == 1 {
            assert(fs[i][j] == s[j]);
        } else if i == 2 {
            assert(fs[i][j] == castle_field(d.castlerights)[j]);
        } else if i == 3 {
            assert(fs[i][j] == e[j]);
        } else if i == 4 {
            assert(fs[i][j] == f1[j]);
        } else {
            assert(fs[i][j] == f2[j]);
        }
    }
    lemma_split_join(fs);
}

/// Parsing a serialized record recovers the position, field for field:
/// serialization is the exact left inverse of parsing.
pub proof fn lemma_fen_round_trip(d: FenData)
    requires
        fen_data_valid(d),
    ensures
        parse_fen_spec(fen_of(d)) == Some(d),
{
    let p = placement_of(d.board);
    let s = side_field(d.white_to_move);
    let c = castle_field(d.castlerights);
    let e = ep_field(d.ep_square);
    let f1 = dec_rep(d.fullmove_clock as int);
    let f2 = dec_rep(d.halfmove_clock as int);
    let whole = fen_of(d);
    lemma_fen_fields(d);
    let fields = split_on(whole, ' ');
    assert(fields.len() == 6);
    assert(fields[0] == p && fields[1] == s && fields[2] == c && fields[3] == e && fields[4] == f1
        && fields[5] == f2);

    // Each field parses back to its content.
    lemma_placement_round_trip(d.board);
    if d.white_to_move {
        assert(s =~= seq!['w']);
    } else {
        assert(s =~= seq!['b']);
        assert(s[0] == 'b');
        assert(!(s =~= seq!['w']));
    }
    assert(parse_side(s) == Some(d.white_to_move));
    lemma_castle_round_trip(d.castlerights);
    lemma_ep_round_trip(d.ep_square);
    lemma_dec_round_trip(d.fullmove_clock as int);
    lemma_dec_round_trip(d.halfmove_clock as int);
    assert(parse_fen_spec(whole) matches Some(x) && x =~~= d);
}

/// Make/unmake inverse, at the textual level: applying a move flips the side
/// to move, so the serialized record after `make` always differs from the
/// record before it; and since `Game::make` pushes the new state and
/// `Game::unmake` pops it (dropping the last stack entry), serializing
/// before `make`, after `make`, and after the matching `unmake` yields the
/// initial record, a different record, and the initial record again.
pub proof fn lemma_make_changes_record(
    pre: GameState,
    m: crate::game_move::GameMove,
    post: GameState,
)
    requires
        pre.wf(),
        post.wf(),
        crate::game_state::make_rel(pre, m, post),
    ensures
        fen_of(state_data(post)) != fen_of(state_data(pre)),
{
    assert(post.white_to_move == !pre.white_to_move);
    if fen_of(state_data(post)) == fen_of(state_data(pre)) {
        lemma_fen_of_injective(state_data(post), state_data(pre));
    }
}

/// A well-formed state is determined by its abstract content: the occupancy
/// words are a function of the board, so two well-formed states with the
/// same content are the same state, field for field.
pub proof fn lemma_state_data_pins_state(g1: GameState, g2: GameState)
    requires
        g1.wf(),
        g2.wf(),
        state_data(g1) == state_data(g2),
    ensures
        g1 == g2,
{
    assert(g1.board() == g2.board());
    assert forall|k: int| 0 <= k < 12 implies g1.bbs@[k] == g2.bbs@[k] by {
        assert(g1.bbs@[k] == bb_of(g1.board(), k));
        assert(g2.bbs@[k] == bb_of(g2.board(), k));
    }
    assert(g1.bbs@ =~= g2.bbs@);
    assert(g1.bbs =~= g2.bbs);
    assert(g1.occupancy.entries() == g2.occupancy.entries());
    assert(g1.occupancy.map =~= g2.occupancy.map);
    assert(g1.castlerights@ == g2.castlerights@);
    assert(g1.castlerights =~= g2.castlerights);
}

/// Round trip at the state level: parsing the serialized record of a
/// well-formed state gives back that very state, occupancy words and all
/// metadata included.
pub proof fn lemma_state_round_trip(pre: GameState, post: GameState)
    requires
        pre.wf(),
        post.wf(),
        parse_fen_spec(fen_of(state_data(pre))) == Some(state_data(post)),
    ensures
        post == pre,
{
    lemma_fen_round_trip(state_data(pre));
    lemma_state_data_pins_state(pre, post);
}

/// Serialization is injective on valid contents: two positions with the
/// same textual record are the same position.
pub proof fn lemma_fen_of_injective(d1: FenData, d2: FenData)
    requires
        fen_data_valid(d1),
        fen_data_valid(d2),
        fen_of(d1) == fen_of(d2),
    ensures
        d1 == d2,
{
    lemma_fen_round_trip(d1);
    lemma_fen_round_trip(d2);
}

} // verus!
