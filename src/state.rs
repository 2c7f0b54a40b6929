//! The irreversible part of a position, saved on the undo stack by each make.

use vstd::prelude::*;
use crate::types::{Color, Piece};

verus! {

/// Side to move, clocks, castling rights, en-passant target, the kind of the
/// piece the last move captured, and the position hash.
#[derive(Clone, Copy, Debug, PartialEq, Eq, Structural)]
pub struct State {
    /// The side to move.
    pub turn_color: Color,
    /// The fullmove number, incremented after each black move.
    pub full_move_number: u32,
    /// Halfmoves since the last pawn move or capture.
    pub half_move_clock: u32,
    /// White may still castle on the king's wing.
    pub can_white_king_castle: bool,
    /// White may still castle on the queen's wing.
    pub can_white_queen_castle: bool,
    /// Black may still castle on the king's wing.
    pub can_black_king_castle: bool,
    /// Black may still castle on the queen's wing.
    pub can_black_queen_castle: bool,
    /// The square a pawn capturing en passant would move to, if any.
    pub en_passant_square: Option<u64>,
    /// The kind of the piece that the move leading here captured, if any.
    pub captured_piece: Option<Piece>,
    /// The Zobrist hash of the position.
    pub zobrist_hash_key: u64,
}

impl Default for State {
    fn default() -> (r: State)
        ensures
            r.turn_color == Color::White,
            r.full_move_number == 0,
            r.half_move_clock == 0,
            r.can_white_king_castle && r.can_white_queen_castle,
            r.can_black_king_castle && r.can_black_queen_castle,
            r.en_passant_square is None,
            r.captured_piece is None,
            r.zobrist_hash_key == 0,
    {
        State {
            turn_color: Color::White,
            full_move_number: 0,
            half_move_clock: 0,
            can_white_king_castle: true,
            can_white_queen_castle: true,
            can_black_king_castle: true,
            can_black_queen_castle: true,
            en_passant_square: None,
            captured_piece: None,
            zobrist_hash_key: 0,
        }
    }
}

/// The record a make pushes on the undo stack: the kind of the piece the
/// move removes, if any, and the state before the move.
#[derive(Clone, Copy, Debug, PartialEq, Eq, Structural)]
pub struct Undo {
    /// The kind of the piece the move captures, if any.
    pub captured_piece: Option<Piece>,
    /// The state before the move: clocks, castling rights, en-passant
    /// target, side to move and hash.
    pub state: State,
}

/// The index of a set of castling rights among the 16: bit 0 white king's
/// wing, bit 1 white queen's wing, bit 2 black king's wing, bit 3 black
/// queen's wing.
pub open spec fn castling_index(s: State) -> int {
    (if s.can_white_king_castle { 1int } else { 0int }) + (if s.can_white_queen_castle {
        2int
    } else {
        0int
    }) + (if s.can_black_king_castle { 4int } else { 0int }) + (if s.can_black_queen_castle {
        8int
    } else {
        0int
    })
}

} // verus!
