//! FEN parsing, and the consistency checks a parsed position must pass.

use vstd::prelude::*;
use vstd::string::StringSliceAdditionalSpecFns;
use crate::ascii::{
    DASH, DIGIT_0, DIGIT_1, DIGIT_8, DIGIT_9, LOWER_A, LOWER_B, LOWER_H, LOWER_K, LOWER_Q, LOWER_W, SLASH,
    SPACE, UPPER_A, UPPER_H, UPPER_K, UPPER_Q,
};
use crate::board::{
    castling_consistent, ep_hash, mask_hash, BoardModel, Chessboard, A1, A8, E1, E8, H1, H8,
};
use crate::makemove::toggle_hash;
use crate::state::{State, castling_index};
use crate::tables::{AttackTables, Zobrist};
use crate::types::{Color, Piece, board_index, get_piece_index};

verus! {

/// Why a FEN string was refused.
#[derive(Clone, Copy, Debug, PartialEq, Eq, Structural)]
pub enum FenError {
    /// The string is not six fields separated by single spaces.
    FieldCount,
    /// The piece placement is not eight ranks of eight squares.
    Placement,
    /// The side to move is neither `w` nor `b`.
    Turn,
    /// The halfmove clock is not a number.
    HalfMoves,
    /// The fullmove number is not a number.
    FullMoves,
    /// The pieces overlap or a side has not exactly one king.
    Inconsistent,
    /// The castling field is neither `-` nor letters among `KQkq`.
    Castling,
    /// The en-passant field is neither `-` nor a square name.
    EnPassant,
}

/// The bitwise union of `p[start .. start + n]`.
pub open spec fn side_union(p: Seq<u64>, start: int, n: nat) -> u64
    decreases n,
{
    if n == 0 {
        0
    } else {
        side_union(p, start, (n - 1) as nat) | p[start + n - 1]
    }
}

/// Exactly one bit of `x` is set.
pub open spec fn one_bit(x: u64) -> bool {
    x != 0 && x & vstd::prelude::sub(x, 1) == 0
}

/// The piece bitboards are pairwise disjoint, each aggregate is the union of
/// its side's six bitboards, the aggregates are disjoint, and each side has
/// exactly one king.
pub open spec fn pieces_consistent(b: BoardModel) -> bool {
    &&& b.pieces.len() == 12
    &&& forall|i: int, j: int| 0 <= i < j < 12 ==> #[trigger] (b.pieces[i] & b.pieces[j]) == 0
    &&& b.white == side_union(b.pieces, 0, 6)
    &&& b.black == side_union(b.pieces, 6, 6)
    &&& b.white & b.black == 0
    &&& one_bit(b.pieces[5])
    &&& one_bit(b.pieces[11])
}

/// The Zobrist terms of every piece of the first `n` bitboards.
pub open spec fn pieces_hash(keys: Seq<u64>, p: Seq<u64>, n: nat) -> u64
    decreases n,
{
    if n == 0 {
        0
    } else {
        pieces_hash(keys, p, (n - 1) as nat) ^ mask_hash(keys, n - 1, p[n - 1])
    }
}

/// The Zobrist hash of a position computed from scratch.
pub open spec fn full_hash(b: BoardModel, z: Zobrist) -> u64 {
    pieces_hash(z.piece_square@, b.pieces, 12) ^ z.castling_rights@[castling_index(b.state)]
        ^ ep_hash(z, b.state.en_passant_square) ^ (if b.state.turn_color == Color::Black {
        z.black_to_move
    } else {
        0
    })
}

/// The side and kind of a FEN piece letter.
pub open spec fn piece_of_byte(c: u8) -> Option<(Color, Piece)> {
    if c == 80 {
        Some((Color::White, Piece::Pawn))
    } else if c == 78 {
        Some((Color::White, Piece::Knight))
    } else if c == 66 {
        Some((Color::White, Piece::Bishop))
    } else if c == 82 {
        Some((Color::White, Piece::Rook))
    } else if c == 81 {
        Some((Color::White, Piece::Queen))
    } else if c == 75 {
        Some((Color::White, Piece::King))
    } else if c == 112 {
        Some((Color::Black, Piece::Pawn))
    } else if c == 110 {
        Some((Color::Black, Piece::Knight))
    } else if c == 98 {
        Some((Color::Black, Piece::Bishop))
    } else if c == 114 {
        Some((Color::Black, Piece::Rook))
    } else if c == 113 {
        Some((Color::Black, Piece::Queen))
    } else if c == 107 {
        Some((Color::Black, Piece::King))
    } else {
        None
    }
}

/// The state of reading a placement field: the rank index counted from
/// rank 8, the file, and the twelve bitboards so far.
pub struct PlacementState {
    pub rank: int,
    pub file: int,
    pub pieces: Seq<u64>,
}

/// The state after reading byte `c`: a slash ends a full rank, a digit skips
/// empty squares, a piece letter puts the piece on the next square; none
/// once the text is malformed.
pub open spec fn placement_step(st: Option<PlacementState>, c: u8) -> Option<PlacementState> {
    match st {
        None => None,
        Some(s) => {
            if c == SLASH {
                if s.file != 8 || s.rank == 7 {
                    None
                } else {
                    Some(PlacementState { rank: s.rank + 1, file: 0, pieces: s.pieces })
                }
            } else if DIGIT_1 <= c <= DIGIT_8 {
                if s.file + (c - DIGIT_0) > 8 {
                    None
                } else {
                    Some(PlacementState { file: s.file + (c - DIGIT_0), ..s })
                }
            } else {
                match piece_of_byte(c) {
                    Some((color, piece)) => {
                        if s.file >= 8 {
                            None
                        } else {
                            let idx = board_index(color, piece);
                            let sq = (7 - s.rank) * 8 + s.file;
                            Some(
                                PlacementState {
                                    file: s.file + 1,
                                    pieces: s.pieces.update(
                                        idx,
                                        s.pieces[idx] ^ (1u64 << sq as u64),
                                    ),
                                    ..s
                                },
                            )
                        }
                    },
                    None => None,
                }
            }
        },
    }
}

/// The state after reading the placement text `t`.
pub open spec fn placement_state(t: Seq<u8>) -> Option<PlacementState>
    decreases t.len(),
{
    if t.len() == 0 {
        Some(PlacementState { rank: 0, file: 0, pieces: Seq::new(12, |i: int| 0u64) })
    } else {
        placement_step(placement_state(t.drop_last()), t.last())
    }
}

/// The twelve bitboards a placement field describes: eight ranks of eight
/// squares, rank 8 first.
pub open spec fn placement_of(t: Seq<u8>) -> Option<Seq<u64>> {
    match placement_state(t) {
        Some(s) => if s.rank == 7 && s.file == 8 {
            Some(s.pieces)
        } else {
            None
        },
        None => None,
    }
}

/// Once malformed, a placement text stays malformed.
proof fn lemma_placement_stays_bad(t: Seq<u8>, k: int)
    requires
        0 <= k <= t.len(),
        placement_state(t.subrange(0, k)) is None,
    ensures
        placement_state(t) is None,
    decreases t.len() - k,
{
    if k < t.len() {
        assert(t.subrange(0, k + 1).drop_last() =~= t.subrange(0, k));
        lemma_placement_stays_bad(t, k + 1);
    } else {
        assert(t.subrange(0, k) =~= t);
    }
}

/// The side and kind of a FEN piece letter.
pub fn piece_of_char(c: u8) -> (r: Option<(Color, Piece)>)
    ensures
        r == piece_of_byte(c),
{
    match c {
        80u8 => Some((Color::White, Piece::Pawn)),  // 'P'
        78u8 => Some((Color::White, Piece::Knight)),  // 'N'
        66u8 => Some((Color::White, Piece::Bishop)),  // 'B'
        82u8 => Some((Color::White, Piece::Rook)),  // 'R'
        81u8 => Some((Color::White, Piece::Queen)),  // 'Q'
        75u8 => Some((Color::White, Piece::King)),  // 'K'
        112u8 => Some((Color::Black, Piece::Pawn)),  // 'p'
        110u8 => Some((Color::Black, Piece::Knight)),  // 'n'
        98u8 => Some((Color::Black, Piece::Bishop)),  // 'b'
        114u8 => Some((Color::Black, Piece::Rook)),  // 'r'
        113u8 => Some((Color::Black, Piece::Queen)),  // 'q'
        107u8 => Some((Color::Black, Piece::King)),  // 'k'
        _ => None,
    }
}

/// Every byte of `s` is a decimal digit.
pub open spec fn all_digits(s: Seq<u8>) -> bool {
    forall|i: int| 0 <= i < s.len() ==> DIGIT_0 <= #[trigger] s[i] <= DIGIT_9
}

/// The value of the decimal digits `s`, most significant first.
pub open spec fn decimal_value(s: Seq<u8>) -> nat
    decreases s.len(),
{
    if s.len() == 0 {
        0
    } else {
        decimal_value(s.drop_last()) * 10 + (s.last() - DIGIT_0) as nat
    }
}

/// The number the bytes `s` spell, if they are one or more decimal digits
/// whose value fits in a `u32`.
pub open spec fn u32_of_text(s: Seq<u8>) -> Option<u32> {
    if s.len() > 0 && all_digits(s) && decimal_value(s) <= u32::MAX {
        Some(decimal_value(s) as u32)
    } else {
        None
    }
}

/// Appending digits never lowers a decimal value.
proof fn lemma_decimal_grows(s: Seq<u8>, k: int)
    requires
        0 <= k <= s.len(),
        all_digits(s),
    ensures
        decimal_value(s.subrange(0, k)) <= decimal_value(s),
    decreases s.len() - k,
{
    if k < s.len() {
        lemma_decimal_grows(s, k + 1);
        let t = s.subrange(0, k + 1);
        assert(t.drop_last() =~= s.subrange(0, k));
        assert(DIGIT_0 <= s[k]);
    } else {
        assert(s.subrange(0, k) =~= s);
    }
}

/// The value of the decimal digits `text[start..end]`; `None` when the range
/// is empty, holds another byte, or overflows.
pub fn parse_u32(text: &[u8], start: usize, end: usize) -> (r: Option<u32>)
    requires
        start <= end <= text@.len(),
    ensures
        r == u32_of_text(text@.subrange(start as int, end as int)),
{
    let ghost whole = text@.subrange(start as int, end as int);
    if start == end {
        return None;
    }
    let mut value: u32 = 0;
    let mut i = start;
    assert(text@.subrange(start as int, start as int) =~= Seq::<u8>::empty());
    while i < end
        invariant
            start <= i <= end <= text@.len(),
            whole == text@.subrange(start as int, end as int),
            all_digits(text@.subrange(start as int, i as int)),
            value == decimal_value(text@.subrange(start as int, i as int)),
        decreases end - i,
    {
        let c = text[i];
        let ghost next = text@.subrange(start as int, i as int + 1);
        assert(next.drop_last() =~= text@.subrange(start as int, i as int));
        assert(whole.subrange(0, i - start + 1) =~= next);
        if c < DIGIT_0 || c > DIGIT_9 {
            assert(whole[i - start] == c);
            return None;
        }
        let d = (c - DIGIT_0) as u32;
        if value > (u32::MAX - d) / 10 {
            proof {
                assert(value * 10 + d > u32::MAX) by (nonlinear_arith)
                    requires
                        value > (u32::MAX - d) / 10,
                        d <= 9,
                ;
                if all_digits(whole) {
                    lemma_decimal_grows(whole, i - start + 1);
                }
            }
            return None;
        }
        assert(value * 10 + d <= u32::MAX) by (nonlinear_arith)
            requires
                value <= (u32::MAX - d) / 10,
                d <= 9,
        ;
        value = value * 10 + d;
        i = i + 1;
    }
    assert(text@.subrange(start as int, i as int) =~= whole);
    Some(value)
}

/// The index of a file letter, in either case.
pub open spec fn file_of_byte(c: u8) -> Option<u64> {
    if LOWER_A <= c <= LOWER_H {
        Some((c - LOWER_A) as u64)
    } else if UPPER_A <= c <= UPPER_H {
        Some((c - UPPER_A) as u64)
    } else {
        None
    }
}

/// The square the two bytes `s` name: a file letter, then a rank digit.
pub open spec fn square_of_text(s: Seq<u8>) -> Option<u64> {
    if s.len() != 2 || !(DIGIT_1 <= s[1] <= DIGIT_8) {
        None
    } else {
        match file_of_byte(s[0]) {
            Some(f) => Some(((s[1] - DIGIT_1) * 8 + f) as u64),
            None => None,
        }
    }
}

/// The index of the square named by `text[start..end]` (a file letter in
/// either case, then a rank digit).
pub fn parse_square(text: &[u8], start: usize, end: usize) -> (r: Option<u64>)
    requires
        start <= end <= text@.len(),
    ensures
        r == square_of_text(text@.subrange(start as int, end as int)),
        r is Some ==> r->Some_0 < 64,
{
    let ghost s = text@.subrange(start as int, end as int);
    if end - start != 2 {
        return None;
    }
    let f = text[start];
    let rk = text[start + 1];
    assert(s[0] == f && s[1] == rk);
    let file: u64 = if LOWER_A <= f && f <= LOWER_H {
        (f - LOWER_A) as u64
    } else if UPPER_A <= f && f <= UPPER_H {
        (f - UPPER_A) as u64
    } else {
        return None;
    };
    if rk < DIGIT_1 || rk > DIGIT_8 {
        return None;
    }
    Some(((rk - DIGIT_1) as u64) * 8 + file)
}

/// The number of spaces in `s`.
pub open spec fn space_count(s: Seq<u8>) -> nat
    decreases s.len(),
{
    if s.len() == 0 {
        0
    } else {
        space_count(s.drop_last()) + if s.last() == SPACE {
            1nat
        } else {
            0nat
        }
    }
}

/// `f` lists the space-separated fields of `s` in order: ranges without
/// spaces, the first starting at 0, each next one just after the space that
/// ends the previous one, the last ending at the end of `s`.
pub open spec fn is_split(s: Seq<u8>, f: Seq<(usize, usize)>) -> bool {
    &&& f.len() >= 1
    &&& f[0].0 == 0
    &&& f.last().1 == s.len()
    &&& forall|k: int| 0 <= k < f.len() ==> #[trigger] f[k].0 <= f[k].1 <= s.len()
    &&& forall|k: int|
        0 <= k < f.len() - 1 ==> #[trigger] s[f[k].1 as int] == SPACE && f[k + 1].0 == f[k].1 + 1
    &&& forall|k: int, j: int|
        #![trigger f[k], s[j]]
        0 <= k < f.len() && f[k].0 <= j < f[k].1 ==> s[j] != SPACE
}

/// The bytes of field `k` of `s` under the split `f`.
pub open spec fn field_text(s: Seq<u8>, f: Seq<(usize, usize)>, k: int) -> Seq<u8> {
    s.subrange(f[k].0 as int, f[k].1 as int)
}

/// The side a side-to-move field names.
pub open spec fn turn_of_text(t: Seq<u8>) -> Option<Color> {
    if t == seq![LOWER_W] {
        Some(Color::White)
    } else if t == seq![LOWER_B] {
        Some(Color::Black)
    } else {
        None
    }
}

/// Whether byte `c` occurs in `t`.
pub open spec fn has_byte(t: Seq<u8>, c: u8) -> bool {
    exists|i: int| 0 <= i < t.len() && t[i] == c
}

/// A castling field: `-`, or one or more letters among `KQkq`.
pub open spec fn castling_field_ok(t: Seq<u8>) -> bool {
    t == seq![DASH] || (t.len() > 0 && castle_letters(t))
}

/// Every byte of `t` is one of `KQkq`.
pub open spec fn castle_letters(t: Seq<u8>) -> bool {
    forall|i: int|
        0 <= i < t.len() ==> #[trigger] t[i] == UPPER_K || t[i] == UPPER_Q || t[i] == LOWER_K || t[i]
            == LOWER_Q
}

/// An en-passant field: `-`, or a square name.
pub open spec fn ep_field_ok(t: Seq<u8>) -> bool {
    t == seq![DASH] || square_of_text(t) is Some
}

/// Placed bitboards that make a position: pairwise disjoint, with disjoint
/// side unions, and exactly one king per side.
pub open spec fn placement_ok(p: Seq<u64>) -> bool {
    &&& forall|i: int, j: int| 0 <= i < j < 12 ==> #[trigger] (p[i] & p[j]) == 0
    &&& side_union(p, 0, 6) & side_union(p, 6, 6) == 0
    &&& one_bit(p[5])
    &&& one_bit(p[11])
}

/// How parsing a six-field FEN string with fields `f` ends: a bad side to
/// move, halfmove clock, fullmove number, castling field, en-passant field
/// or piece placement gives its error, checked in that order; placed pieces
/// that overlap or do not give each side one king give `Inconsistent`;
/// otherwise parsing succeeds, and a parsed position holds what the fields name:
/// bitboards, side, clocks, en-passant target, and each castling right whose
/// letter is present and whose king and rook stand at home.
pub open spec fn fen_outcome(s: Seq<u8>, f: Seq<(usize, usize)>, r: Result<Chessboard, FenError>) -> bool {
    let turn = turn_of_text(field_text(s, f, 1));
    let half = u32_of_text(field_text(s, f, 4));
    let full = u32_of_text(field_text(s, f, 5));
    let castling_ok = castling_field_ok(field_text(s, f, 2));
    let ep_ok = ep_field_ok(field_text(s, f, 3));
    let placed = placement_of(field_text(s, f, 0));
    let head = turn is Some && half is Some && full is Some;
    &&& (r is Err && r->Err_0 == FenError::Turn) <==> turn is None
    &&& turn is Some ==> ((r is Err && r->Err_0 == FenError::HalfMoves) <==> half is None)
    &&& turn is Some && half is Some ==> ((r is Err && r->Err_0 == FenError::FullMoves) <==> full
        is None)
    &&& head ==> ((r is Err && r->Err_0 == FenError::Castling) <==> !castling_ok)
    &&& head && castling_ok ==> ((r is Err && r->Err_0 == FenError::EnPassant) <==> !ep_ok)
    &&& head && castling_ok && ep_ok ==> ((r is Err && r->Err_0 == FenError::Placement) <==> placed
        is None)
    &&& head && castling_ok && ep_ok && placed is Some ==> ((r is Err && r->Err_0
        == FenError::Inconsistent) <==> !placement_ok(placed->Some_0))
    &&& r is Ok <==> (head && castling_ok && ep_ok && placed is Some && placement_ok(
        placed->Some_0,
    ))
    &&& r is Ok ==> {
        let b = r->Ok_0;
        let castling = field_text(s, f, 2);
        &&& placement_of(field_text(s, f, 0)) == Some(b.pieces@)
        &&& turn == Some(b.state.turn_color)
        &&& half == Some(b.state.half_move_clock)
        &&& full == Some(b.state.full_move_number)
        &&& b.state.en_passant_square == square_of_text(field_text(s, f, 3))
        &&& b.state.can_white_king_castle == (has_byte(castling, UPPER_K) && b.pieces[5] & E1 != 0
            && b.pieces[1] & H1 != 0)
        &&& b.state.can_white_queen_castle == (has_byte(castling, UPPER_Q) && b.pieces[5] & E1
            != 0 && b.pieces[1] & A1 != 0)
        &&& b.state.can_black_king_castle == (has_byte(castling, LOWER_K) && b.pieces[11] & E8 != 0
            && b.pieces[7] & H8 != 0)
        &&& b.state.can_black_queen_castle == (has_byte(castling, LOWER_Q) && b.pieces[11] & E8
            != 0 && b.pieces[7] & A8 != 0)
    }
}

/// How parsing FEN text `s` ends: `FieldCount` exactly when `s` does not
/// have six fields, and otherwise as `fen_outcome` says for its fields.
pub open spec fn fen_parse_outcome(s: Seq<u8>, r: Result<Chessboard, FenError>) -> bool {
    &&& (r is Err && r->Err_0 == FenError::FieldCount) <==> space_count(s) != 5
    &&& space_count(s) == 5 ==> exists|f: Seq<(usize, usize)>|
        #[trigger] is_split(s, f) && f.len() == 6 && fen_outcome(s, f, r)
}

/// The standard starting position, before its hash: the sixteen pieces of
/// each side at home, white to move, all castling rights, no en-passant
/// target, clocks 0 and 1, and an empty undo stack.
pub open spec fn is_start_position(b: BoardModel) -> bool {
    &&& b.pieces == start_pieces()
    &&& b.white == 0xFFFFu64
    &&& b.black == 0xFFFF_0000_0000_0000u64
    &&& b.state.turn_color == Color::White
    &&& b.state.full_move_number == 1
    &&& b.state.half_move_clock == 0
    &&& b.state.can_white_king_castle && b.state.can_white_queen_castle
    &&& b.state.can_black_king_castle && b.state.can_black_queen_castle
    &&& b.state.en_passant_square is None
    &&& b.state.captured_piece is None
    &&& b.stack.len() == 0
    &&& b.ply == 0
}

/// The starting bitboards, in bitboard order.
pub open spec fn start_pieces() -> Seq<u64> {
    seq![
        0xFF00u64,
        0x81,
        0x42,
        0x24,
        0x08,
        0x10,
        0x00FF_0000_0000_0000,
        0x8100_0000_0000_0000,
        0x4200_0000_0000_0000,
        0x2400_0000_0000_0000,
        0x0800_0000_0000_0000,
        0x1000_0000_0000_0000,
    ]
}

/// The start and end of each space-separated field of `text`: one more
/// field than there are spaces.
fn split_fields(text: &[u8]) -> (r: Vec<(usize, usize)>)
    ensures
        r.len() == space_count(text@) + 1,
        is_split(text@, r@),
{
    let mut fields: Vec<(usize, usize)> = Vec::new();
    let mut start: usize = 0;
    let mut i: usize = 0;
    assert(text@.subrange(0, 0) =~= Seq::<u8>::empty());
    while i < text.len()
        invariant
            start <= i <= text@.len(),
            fields.len() == space_count(text@.subrange(0, i as int)),
            fields.len() == 0 ==> start == 0,
            fields.len() > 0 ==> fields[0].0 == 0 && start == fields@.last().1 + 1,
            forall|k: int|
                0 <= k < fields.len() ==> #[trigger] fields[k].0 <= fields[k].1 < i && text@[fields[k].1 as int]
                    == SPACE,
            forall|k: int| 0 <= k < fields.len() - 1 ==> #[trigger] fields[k + 1].0 == fields[k].1 + 1,
            forall|k: int, j: int|
                #![trigger fields[k], text@[j]]
                0 <= k < fields.len() && fields[k].0 <= j < fields[k].1 ==> text@[j] != SPACE,
            forall|j: int| start <= j < i ==> #[trigger] text@[j] != SPACE,
        decreases text.len() - i,
    {
        assert(text@.subrange(0, i as int + 1).drop_last() =~= text@.subrange(0, i as int));
        if text[i] == SPACE {
            let ghost before = fields@;
            fields.push((start, i));
            assert forall|k: int| 0 <= k < fields.len() implies #[trigger] fields[k].0 <= fields[k].1
                < i + 1 && text@[fields[k].1 as int] == SPACE by {
                if k < before.len() {
                    assert(fields[k] == before[k]);
                }
            }
            assert forall|k: int| 0 <= k < fields.len() - 1 implies #[trigger] fields[k + 1].0
                == fields[k].1 + 1 by {
                assert(fields[k] == before[k]);
                if k + 1 < before.len() {
                    assert(fields[k + 1] == before[k + 1]);
                }
            }
            assert forall|k: int, j: int|
                #![trigger fields[k], text@[j]]
                0 <= k < fields.len() && fields[k].0 <= j < fields[k].1 implies text@[j] != SPACE by {
                if k < before.len() {
                    assert(fields[k] == before[k]);
                }
            }
            start = i + 1;
        }
        i = i + 1;
    }
    assert(text@.subrange(0, i as int) =~= text@);
    let ghost before = fields@;
    fields.push((start, text.len()));
    assert forall|k: int| 0 <= k < fields.len() implies #[trigger] fields[k].0 <= fields[k].1
        <= text@.len() by {
        if k < before.len() {
            assert(fields[k] == before[k]);
        }
    }
    assert forall|k: int| 0 <= k < fields.len() - 1 implies #[trigger] text@[fields[k].1 as int]
        == SPACE && fields[k + 1].0 == fields[k].1 + 1 by {
        assert(fields[k] == before[k]);
        if k + 1 < before.len() {
            assert(fields[k + 1] == before[k + 1]);
        }
    }
    assert forall|k: int, j: int|
        #![trigger fields[k], text@[j]]
        0 <= k < fields.len() && fields[k].0 <= j < fields[k].1 implies text@[j] != SPACE by {
        if k < before.len() {
            assert(fields[k] == before[k]);
        }
    }
    fields
}

/// The union of the bitboards `first .. first + 6`.
fn union_of_side(pieces: &Vec<u64>, first: usize) -> (r: u64)
    requires
        pieces.len() == 12,
        first == 0 || first == 6,
    ensures
        r == side_union(pieces@, first as int, 6),
{
    let mut acc: u64 = 0;
    let mut n: usize = 0;
    while n < 6
        invariant
            pieces.len() == 12,
            first == 0 || first == 6,
            n <= 6,
            acc == side_union(pieces@, first as int, n as nat),
        decreases 6 - n,
    {
        acc = acc | pieces[first + n];
        n = n + 1;
    }
    acc
}

proof fn lemma_start_halves()
    by (bit_vector)
    ensures
        0xFFFFu64 & 0xFFFF000000000000u64 == 0,
        0x81u64 & H1 != 0 && 0x81u64 & A1 != 0 && 0x10u64 & E1 != 0,
        0x8100000000000000u64 & H8 != 0 && 0x8100000000000000u64 & A8 != 0,
        0x1000000000000000u64 & E8 != 0,
{
}

proof fn lemma_start_bits()
    by (bit_vector)
    ensures
        0xFF00u64 & 0x81u64 == 0,
        0xFF00u64 & 0x42u64 == 0,
        0xFF00u64 & 0x24u64 == 0,
        0xFF00u64 & 0x8u64 == 0,
        0xFF00u64 & 0x10u64 == 0,
        0xFF00u64 & 0xFF000000000000u64 == 0,
        0xFF00u64 & 0x8100000000000000u64 == 0,
        0xFF00u64 & 0x4200000000000000u64 == 0,
        0xFF00u64 & 0x2400000000000000u64 == 0,
        0xFF00u64 & 0x800000000000000u64 == 0,
        0xFF00u64 & 0x1000000000000000u64 == 0,
        0x81u64 & 0x42u64 == 0,
        0x81u64 & 0x24u64 == 0,
        0x81u64 & 0x8u64 == 0,
        0x81u64 & 0x10u64 == 0,
        0x81u64 & 0xFF000000000000u64 == 0,
        0x81u64 & 0x8100000000000000u64 == 0,
        0x81u64 & 0x4200000000000000u64 == 0,
        0x81u64 & 0x2400000000000000u64 == 0,
        0x81u64 & 0x800000000000000u64 == 0,
        0x81u64 & 0x1000000000000000u64 == 0,
        0x42u64 & 0x24u64 == 0,
        0x42u64 & 0x8u64 == 0,
        0x42u64 & 0x10u64 == 0,
        0x42u64 & 0xFF000000000000u64 == 0,
        0x42u64 & 0x8100000000000000u64 == 0,
        0x42u64 & 0x4200000000000000u64 == 0,
        0x42u64 & 0x2400000000000000u64 == 0,
        0x42u64 & 0x800000000000000u64 == 0,
        0x42u64 & 0x1000000000000000u64 == 0,
        0x24u64 & 0x8u64 == 0,
        0x24u64 & 0x10u64 == 0,
        0x24u64 & 0xFF000000000000u64 == 0,
        0x24u64 & 0x8100000000000000u64 == 0,
        0x24u64 & 0x4200000000000000u64 == 0,
        0x24u64 & 0x2400000000000000u64 == 0,
        0x24u64 & 0x800000000000000u64 == 0,
        0x24u64 & 0x1000000000000000u64 == 0,
        0x8u64 & 0x10u64 == 0,
        0x8u64 & 0xFF000000000000u64 == 0,
        0x8u64 & 0x8100000000000000u64 == 0,
        0x8u64 & 0x4200000000000000u64 == 0,
        0x8u64 & 0x2400000000000000u64 == 0,
        0x8u64 & 0x800000000000000u64 == 0,
        0x8u64 & 0x1000000000000000u64 == 0,
        0x10u64 & 0xFF000000000000u64 == 0,
        0x10u64 & 0x8100000000000000u64 == 0,
        0x10u64 & 0x4200000000000000u64 == 0,
        0x10u64 & 0x2400000000000000u64 == 0,
        0x10u64 & 0x800000000000000u64 == 0,
        0x10u64 & 0x1000000000000000u64 == 0,
        0xFF000000000000u64 & 0x8100000000000000u64 == 0,
        0xFF000000000000u64 & 0x4200000000000000u64 == 0,
        0xFF000000000000u64 & 0x2400000000000000u64 == 0,
        0xFF000000000000u64 & 0x800000000000000u64 == 0,
        0xFF000000000000u64 & 0x1000000000000000u64 == 0,
        0x8100000000000000u64 & 0x4200000000000000u64 == 0,
        0x8100000000000000u64 & 0x2400000000000000u64 == 0,
        0x8100000000000000u64 & 0x800000000000000u64 == 0,
        0x8100000000000000u64 & 0x1000000000000000u64 == 0,
        0x4200000000000000u64 & 0x2400000000000000u64 == 0,
        0x4200000000000000u64 & 0x800000000000000u64 == 0,
        0x4200000000000000u64 & 0x1000000000000000u64 == 0,
        0x2400000000000000u64 & 0x800000000000000u64 == 0,
        0x2400000000000000u64 & 0x1000000000000000u64 == 0,
        0x800000000000000u64 & 0x1000000000000000u64 == 0,
        ((((((0u64 | 0xFF00u64) | 0x81u64) | 0x42u64) | 0x24u64) | 0x8u64) | 0x10u64) == 0xFFFFu64,
        ((((((0u64 | 0xFF000000000000u64) | 0x8100000000000000u64) | 0x4200000000000000u64) | 0x2400000000000000u64) | 0x800000000000000u64) | 0x1000000000000000u64) == 0xFFFF000000000000u64,
        one_bit(0x10u64) && one_bit(0x1000000000000000u64),
{
}

impl Chessboard {
    /// Whether the bitboards are consistent: disjoint, matching aggregates, and
    /// one king per side.
    pub fn is_consistent(&self) -> (r: bool)
        requires
            self.wf(),
        ensures
            r == pieces_consistent(self@),
    {
        let mut i: usize = 0;
        while i < 12
            invariant
                self.wf(),
                i <= 12,
                forall|a: int, b: int| 0 <= a < b < i ==> #[trigger] (self.pieces[a] & self.pieces[b]) == 0,
            decreases 12 - i,
        {
            let mut j: usize = 0;
            while j < i
                invariant
                    self.wf(),
                    j <= i < 12,
                    forall|a: int, b: int| 0 <= a < b < i ==> #[trigger] (self.pieces[a] & self.pieces[b]) == 0,
                    forall|a: int| 0 <= a < j ==> #[trigger] (self.pieces[a] & self.pieces[i as int]) == 0,
                decreases i - j,
            {
                if self.pieces[j] & self.pieces[i] != 0 {
                    return false;
                }
                j = j + 1;
            }
            i = i + 1;
        }
        let wk = self.pieces[5];
        let bk = self.pieces[11];
        self.white_pieces == union_of_side(&self.pieces, 0) && self.black_pieces == union_of_side(
            &self.pieces,
            6,
        ) && self.white_pieces & self.black_pieces == 0 && wk != 0 && wk & (wk - 1) == 0 && bk
            != 0 && bk & (bk - 1) == 0
    }

    /// The Zobrist hash of the position computed from scratch.
    pub fn compute_hash(&self, z: &Zobrist) -> (r: u64)
        requires
            self.wf(),
            z.wf(),
        ensures
            r == full_hash(self@, *z),
    {
        let mut h: u64 = 0;
        let mut i: usize = 0;
        while i < 12
            invariant
                self.wf(),
                z.wf(),
                i <= 12,
                h == pieces_hash(z.piece_square@, self.pieces@, i as nat),
            decreases 12 - i,
        {
            h = h ^ toggle_hash(&z.piece_square, i, self.pieces[i]);
            i = i + 1;
        }
        h = h ^ z.compute_castling_rights_hash(&self.state);
        h = h ^ match self.state.en_passant_square {
            Some(sq) => z.en_passant_file[(sq % 8) as usize],
            None => 0,
        };
        if self.state.turn_color == Color::Black {
            h ^ z.black_to_move
        } else {
            h ^ 0
        }
    }

    /// The standard starting position, with an empty undo stack.
    pub fn new(tables: &AttackTables) -> (r: Chessboard)
        requires
            tables.wf(),
        ensures
            r.wf(),
            r.ply_index == 0,
            r.pieces@ == seq![
                0xFF00u64,
                0x81,
                0x42,
                0x24,
                0x08,
                0x10,
                0x00FF_0000_0000_0000,
                0x8100_0000_0000_0000,
                0x4200_0000_0000_0000,
                0x2400_0000_0000_0000,
                0x0800_0000_0000_0000,
                0x1000_0000_0000_0000,
            ],
            r.white_pieces == 0xFFFF,
            r.black_pieces == 0xFFFF_0000_0000_0000,
            r.state.turn_color == Color::White,
            r.state.full_move_number == 1,
            r.state.half_move_clock == 0,
            r.state.can_white_king_castle && r.state.can_white_queen_castle,
            r.state.can_black_king_castle && r.state.can_black_queen_castle,
            r.state.en_passant_square is None,
            r.state.captured_piece is None,
            r.state.zobrist_hash_key == full_hash(r@, tables.zobrist),
            pieces_consistent(r@),
            castling_consistent(r@),
            is_start_position(r@),
    {
        let mut pieces: Vec<u64> = Vec::with_capacity(12);
        pieces.push(0xFF00);
        pieces.push(0x81);
        pieces.push(0x42);
        pieces.push(0x24);
        pieces.push(0x08);
        pieces.push(0x10);
        pieces.push(0x00FF_0000_0000_0000);
        pieces.push(0x8100_0000_0000_0000);
        pieces.push(0x4200_0000_0000_0000);
        pieces.push(0x2400_0000_0000_0000);
        pieces.push(0x0800_0000_0000_0000);
        pieces.push(0x1000_0000_0000_0000);
        let mut board = Chessboard {
            pieces,
            white_pieces: 0xFFFF,
            black_pieces: 0xFFFF_0000_0000_0000,
            state: State {
                turn_color: Color::White,
                full_move_number: 1,
                half_move_clock: 0,
                can_white_king_castle: true,
                can_white_queen_castle: true,
                can_black_king_castle: true,
                can_black_queen_castle: true,
                en_passant_square: None,
                captured_piece: None,
                zobrist_hash_key: 0,
            },
            state_stack: Vec::new(),
            ply_index: 0,
        };
        let h = board.compute_hash(&tables.zobrist);
        board.state.zobrist_hash_key = h;
        assert(board.pieces@ =~= seq![
            0xFF00u64,
            0x81,
            0x42,
            0x24,
            0x08,
            0x10,
            0x00FF_0000_0000_0000,
            0x8100_0000_0000_0000,
            0x4200_0000_0000_0000,
            0x2400_0000_0000_0000,
            0x0800_0000_0000_0000,
            0x1000_0000_0000_0000,
        ]);
        proof {
            lemma_start_bits();
            let p = board.pieces@;
            assert forall|i: int, j: int| 0 <= i < j < 12 implies #[trigger] (p[i] & p[j]) == 0 by {}
            reveal_with_fuel(side_union, 7);
            assert(board.white_pieces == side_union(p, 0, 6));
            assert(board.black_pieces == side_union(p, 6, 6));
            assert(board.white_pieces & board.black_pieces == 0) by {
                lemma_start_halves();
            }
            lemma_start_halves();
            assert(p[1] == 0x81u64 && p[5] == 0x10u64);
            assert(p[7] == 0x8100000000000000u64 && p[11] == 0x1000000000000000u64);
        }
        board
    }

    /// The position described by a six-field FEN string, with an empty undo
    /// stack. Castling rights whose king or rook is not at home are dropped;
    /// an en-passant field that is neither `-` nor a square is refused.
    pub fn from_fen(tables: &AttackTables, fen: &str) -> (r: Result<Chessboard, FenError>)
        requires
            tables.wf(),
        ensures
            r is Ok ==> {
                let b = r->Ok_0;
                &&& b.wf()
                &&& b.ply_index == 0
                &&& pieces_consistent(b@)
                &&& castling_consistent(b@)
                &&& b.state.zobrist_hash_key == full_hash(b@, tables.zobrist)
                &&& b.state.captured_piece is None
            },
            fen_parse_outcome(fen.spec_bytes(), r),
    {
        let text = fen.as_bytes();
        let fields = split_fields(text);
        if fields.len() != 6 {
            return Err(FenError::FieldCount);
        }
        let ghost f = fields@;
        let ghost ft = field_text(text@, f, 1);
        let (ts, te) = fields[1];
        let turn = if te - ts == 1 && text[ts] == LOWER_W {
            assert(ft =~= seq![LOWER_W]);
            Color::White
        } else if te - ts == 1 && text[ts] == LOWER_B {
            assert(ft =~= seq![LOWER_B]);
            assert(seq![LOWER_B][0] != seq![LOWER_W][0]);
            Color::Black
        } else {
            assert(ft != seq![LOWER_W] && ft != seq![LOWER_B]) by {
                if ft.len() == 1 {
                    assert(ft[0] == text[ts as int]);
                    assert(seq![LOWER_W][0] == LOWER_W);
                    assert(seq![LOWER_B][0] == LOWER_B);
                }
            }
            return Err(FenError::Turn);
        };
        assert(turn_of_text(ft) == Some(turn));
        let (hs, he) = fields[4];
        let half = match parse_u32(text, hs, he) {
            Some(v) => v,
            None => return Err(FenError::HalfMoves),
        };
        let (fs, fe) = fields[5];
        let full = match parse_u32(text, fs, fe) {
            Some(v) => v,
            None => return Err(FenError::FullMoves),
        };
        let (cs, ce) = fields[2];
        let mut wk = false;
        let mut wq = false;
        let mut bk = false;
        let mut bq = false;
        let mut letters = true;
        let mut i = cs;
        assert(text@.subrange(cs as int, cs as int) =~= Seq::<u8>::empty());
        while i < ce
            invariant
                cs <= i <= ce <= text@.len(),
                text@ == fen.spec_bytes(),
                space_count(text@) == 5,
                is_split(text@, f),
                f.len() == 6,
                turn_of_text(field_text(text@, f, 1)) == Some(turn),
                u32_of_text(field_text(text@, f, 4)) == Some(half),
                u32_of_text(field_text(text@, f, 5)) == Some(full),
                cs == f[2].0 && ce == f[2].1,
                wk == has_byte(text@.subrange(cs as int, i as int), UPPER_K),
                wq == has_byte(text@.subrange(cs as int, i as int), UPPER_Q),
                bk == has_byte(text@.subrange(cs as int, i as int), LOWER_K),
                bq == has_byte(text@.subrange(cs as int, i as int), LOWER_Q),
                letters == castle_letters(text@.subrange(cs as int, i as int)),
            decreases ce - i,
        {
            let c = text[i];
            let ghost before = text@.subrange(cs as int, i as int);
            let ghost after = text@.subrange(cs as int, i as int + 1);
            assert(after =~= before.push(c));
            assert(forall|b: u8| has_byte(after, b) <==> (has_byte(before, b) || c == b)) by {
                assert forall|b: u8| has_byte(after, b) implies (has_byte(before, b) || c == b) by {
                    let j = choose|j: int| 0 <= j < after.len() && after[j] == b;
                    if j < before.len() {
                        assert(before[j] == b);
                    }
                }
                assert forall|b: u8| has_byte(before, b) implies has_byte(after, b) by {
                    let j = choose|j: int| 0 <= j < before.len() && before[j] == b;
                    assert(after[j] == b);
                }
                assert(after[before.len() as int] == c);
            }
            assert(castle_letters(after) <==> (castle_letters(before) && (c == UPPER_K || c
                == UPPER_Q || c == LOWER_K || c == LOWER_Q))) by {
                if castle_letters(after) {
                    assert forall|j: int| 0 <= j < before.len() implies #[trigger] before[j]
                        == UPPER_K || before[j] == UPPER_Q || before[j] == LOWER_K || before[j]
                        == LOWER_Q by {
                        assert(after[j] == before[j]);
                    }
                    assert(after[before.len() as int] == c);
                }
            }
            if c != UPPER_K && c != UPPER_Q && c != LOWER_K && c != LOWER_Q {
                letters = false;
            }
            if c == UPPER_K {
                wk = true;
            } else if c == UPPER_Q {
                wq = true;
            } else if c == LOWER_K {
                bk = true;
            } else if c == LOWER_Q {
                bq = true;
            }
            i = i + 1;
        }
        let ghost castling_text = field_text(text@, f, 2);
        assert(text@.subrange(cs as int, ce as int) =~= castling_text);
        let dash = ce - cs == 1 && text[cs] == DASH;
        assert(dash <==> castling_text == seq![DASH]) by {
            if dash {
                assert(castling_text =~= seq![DASH]);
            }
            if castling_text == seq![DASH] {
                assert(seq![DASH][0] == DASH);
                assert(castling_text[0] == text@[cs as int]);
            }
        }
        if !(dash || (ce > cs && letters)) {
            return Err(FenError::Castling);
        }
        let (es, ee) = fields[3];
        let ep = parse_square(text, es, ee);
        let ghost ep_text = field_text(text@, f, 3);
        assert(es == f[3].0 && ee == f[3].1);
        assert(ep_text =~= text@.subrange(es as int, ee as int));
        let ep_dash = ee - es == 1 && text[es] == DASH;
        assert(ep_dash <==> ep_text == seq![DASH]) by {
            if ep_dash {
                assert(ep_text =~= seq![DASH]);
            }
            if ep_text == seq![DASH] {
                assert(seq![DASH][0] == DASH);
                assert(ep_text.len() == 1);
                assert(ep_text[0] == text@[es as int]);
            }
        }
        if ep.is_none() && !ep_dash {
            return Err(FenError::EnPassant);
        }
        let mut board = Chessboard::default();
        board.state = State {
            turn_color: turn,
            full_move_number: full,
            half_move_clock: half,
            can_white_king_castle: false,
            can_white_queen_castle: false,
            can_black_king_castle: false,
            can_black_queen_castle: false,
            en_passant_square: ep,
            captured_piece: None,
            zobrist_hash_key: 0,
        };
        let (ps, pe) = fields[0];
        let mut rank: u64 = 0;
        let mut file: u64 = 0;
        let mut i = ps;
        assert(text@.subrange(ps as int, ps as int) =~= Seq::<u8>::empty());
        assert(board.pieces@ =~= Seq::new(12, |i: int| 0u64));
        while i < pe
            invariant
                ps <= i <= pe <= text@.len(),
                text@ == fen.spec_bytes(),
                space_count(text@) == 5,
                is_split(text@, f),
                f.len() == 6,
                turn_of_text(field_text(text@, f, 1)) == Some(turn),
                u32_of_text(field_text(text@, f, 4)) == Some(half),
                u32_of_text(field_text(text@, f, 5)) == Some(full),
                board.state.turn_color == turn,
                board.state.half_move_clock == half,
                board.state.full_move_number == full,
                board.state.en_passant_square == square_of_text(field_text(text@, f, 3)),
                castling_field_ok(field_text(text@, f, 2)),
                ep_field_ok(field_text(text@, f, 3)),
                wk == has_byte(field_text(text@, f, 2), UPPER_K),
                wq == has_byte(field_text(text@, f, 2), UPPER_Q),
                bk == has_byte(field_text(text@, f, 2), LOWER_K),
                bq == has_byte(field_text(text@, f, 2), LOWER_Q),
                board.wf(),
                board.ply_index == 0,
                board.state.captured_piece is None,
                rank < 8,
                file <= 8,
                ps == f[0].0 && pe == f[0].1,
                placement_state(text@.subrange(ps as int, i as int)) == Some(
                    PlacementState { rank: rank as int, file: file as int, pieces: board.pieces@ },
                ),
            decreases pe - i,
        {
            let c = text[i];
            let ghost prefix = text@.subrange(ps as int, i as int);
            let ghost field0 = field_text(text@, f, 0);
            assert(text@.subrange(ps as int, i as int + 1).drop_last() =~= prefix);
            assert(field0.subrange(0, i - ps + 1) =~= text@.subrange(ps as int, i as int + 1));
            if c == SLASH {
                if file != 8 || rank == 7 {
                    proof {
                        lemma_placement_stays_bad(field0, i - ps + 1);
                    }
                    return Err(FenError::Placement);
                }
                rank = rank + 1;
                file = 0;
            } else if DIGIT_1 <= c && c <= DIGIT_8 {
                file = file + (c - DIGIT_0) as u64;
                if file > 8 {
                    proof {
                        lemma_placement_stays_bad(field0, i - ps + 1);
                    }
                    return Err(FenError::Placement);
                }
            } else {
                match piece_of_char(c) {
                    Some((color, piece)) => {
                        if file >= 8 {
                            proof {
                                lemma_placement_stays_bad(field0, i - ps + 1);
                            }
                            return Err(FenError::Placement);
                        }
                        let sq = (7 - rank) * 8 + file;
                        board.toggle_piece(get_piece_index(color, piece), 1u64 << sq);
                        file = file + 1;
                    },
                    None => {
                        proof {
                            lemma_placement_stays_bad(field0, i - ps + 1);
                        }
                        return Err(FenError::Placement);
                    },
                }
            }
            i = i + 1;
        }
        assert(text@.subrange(ps as int, pe as int) =~= field_text(text@, f, 0));
        if rank != 7 || file != 8 {
            return Err(FenError::Placement);
        }
        let white = union_of_side(&board.pieces, 0);
        let black = union_of_side(&board.pieces, 6);
        board.white_pieces = white;
        board.black_pieces = black;
        if !board.is_consistent() {
            return Err(FenError::Inconsistent);
        }
        let king_home = board.pieces[5] & E1 != 0;
        let black_king_home = board.pieces[11] & E8 != 0;
        board.state.can_white_king_castle = wk && king_home && board.pieces[1] & H1 != 0;
        board.state.can_white_queen_castle = wq && king_home && board.pieces[1] & A1 != 0;
        board.state.can_black_king_castle = bk && black_king_home && board.pieces[7] & H8 != 0;
        board.state.can_black_queen_castle = bq && black_king_home && board.pieces[7] & A8 != 0;
        let h = board.compute_hash(&tables.zobrist);
        board.state.zobrist_hash_key = h;
        Ok(board)
    }
}

} // verus!
