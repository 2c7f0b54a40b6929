//! Per-piece target sets, read from the precomputed tables.

use vstd::prelude::*;
use vstd::std_specs::bits::u64_trailing_zeros;
use crate::attacks::none_attacked_spec;
use crate::board::{BoardModel, Chessboard, B1, B8, C1, C8, D1, D8, E1, E8, F1, F8, G1, G8};
use crate::movegen::{pawn_targets, pawn_targets_spec};
use crate::tables::AttackTables;
use crate::types::{Color, Piece, board_index, opposite};

verus! {

broadcast use vstd::std_specs::bits::axiom_u64_trailing_zeros;

/// Pawn moves and attacks.
pub struct Pawn;

/// Knight moves.
pub struct Knight;

/// King moves and castling.
pub struct King;

/// Bishop moves by magic lookup.
pub struct Bishop;

/// Rook moves by magic lookup.
pub struct Rook;

/// Queen moves: the union of rook and bishop moves.
pub struct Queen;

/// Rays from a square on an empty board, used to rule out slider attacks
/// cheaply.
pub struct SuperPiece;

/// The square of a single-bit mask.
fn square_of(location: u64) -> (r: u64)
    requires
        location != 0,
    ensures
        r == u64_trailing_zeros(location),
        r < 64,
{
    location.trailing_zeros() as u64
}

/// The squares of one side.
fn own_side(chessboard: &Chessboard, side: Color) -> (r: u64)
    ensures
        r == (if side == Color::White {
            chessboard.white_pieces
        } else {
            chessboard.black_pieces
        }),
{
    chessboard.get_color_pieces(side)
}

impl Pawn {
    /// The pawn attack masks: white at `square`, black at `64 + square`.
    pub fn get_attack_mask(tables: &AttackTables) -> (r: Vec<u64>)
        ensures
            r@ == tables.pawn_attacks@,
    {
        tables.pawn_attacks.clone()
    }

    /// The squares a pawn of `turn_color` on the lowest square of `location`
    /// can move to.
    pub fn compute_possible_moves(
        location: u64,
        chessboard: &Chessboard,
        tables: &AttackTables,
        turn_color: Color,
    ) -> (r: u64)
        requires
            location != 0,
            chessboard.wf(),
            tables.wf(),
        ensures
            r == pawn_targets_spec(
                chessboard@,
                *tables,
                turn_color,
                u64_trailing_zeros(location) as u64,
            ),
    {
        pawn_targets(chessboard, tables, turn_color, square_of(location))
    }

    /// The squares a pawn of `turn_color` on the lowest square of `location`
    /// attacks, without its own pieces.
    pub fn compute_possible_attacks(
        location: u64,
        chessboard: &Chessboard,
        tables: &AttackTables,
        turn_color: Color,
    ) -> (r: u64)
        requires
            location != 0,
            tables.wf(),
        ensures
            r == tables.pawn_attacks[crate::types::color_index(turn_color) * 64
                + u64_trailing_zeros(location)] & !(if turn_color == Color::White {
                chessboard.white_pieces
            } else {
                chessboard.black_pieces
            }),
    {
        let sq = square_of(location) as usize;
        tables.pawn_attacks[turn_color.index() * 64 + sq] & !own_side(chessboard, turn_color)
    }
}

impl Knight {
    /// The knight attack masks per square.
    pub fn get_move_masks(tables: &AttackTables) -> (r: Vec<u64>)
        ensures
            r@ == tables.knight_attacks@,
    {
        tables.knight_attacks.clone()
    }

    /// The squares a knight on the lowest square of `location` can move to.
    pub fn compute_possible_moves(
        location: u64,
        chessboard: &Chessboard,
        tables: &AttackTables,
        turn_color: Color,
    ) -> (r: u64)
        requires
            location != 0,
            tables.wf(),
        ensures
            r == tables.knight_attacks[u64_trailing_zeros(location) as int] & !(if turn_color
                == Color::White {
                chessboard.white_pieces
            } else {
                chessboard.black_pieces
            }),
    {
        tables.knight_attacks[square_of(location) as usize] & !own_side(chessboard, turn_color)
    }
}

/// The castling destinations of `side` in `b`: the king's wing square
/// (G1 or G8) when that right holds, the king is at home, F and G are empty
/// and E, F, G are not attacked; the queen's wing square (C1 or C8) when
/// that right holds, the king is at home, B, C, D are empty and E, D, C are
/// not attacked.
pub open spec fn castle_targets_spec(b: BoardModel, t: AttackTables, side: Color) -> u64 {
    let occ = b.white | b.black;
    let king = b.pieces[board_index(side, Piece::King)];
    let opp = opposite(side);
    if side == Color::White {
        if E1 & king != 0 {
            let short = b.state.can_white_king_castle && (F1 | G1) & occ == 0
                && none_attacked_spec(b, t, E1 | F1 | G1, opp);
            let long = b.state.can_white_queen_castle && (B1 | C1 | D1) & occ == 0
                && none_attacked_spec(b, t, E1 | D1 | C1, opp);
            let r1: u64 = if short {
                0u64 | G1
            } else {
                0u64
            };
            if long {
                r1 | C1
            } else {
                r1
            }
        } else {
            0
        }
    } else {
        if E8 & king != 0 {
            let short = b.state.can_black_king_castle && (F8 | G8) & occ == 0
                && none_attacked_spec(b, t, E8 | F8 | G8, opp);
            let long = b.state.can_black_queen_castle && (B8 | C8 | D8) & occ == 0
                && none_attacked_spec(b, t, E8 | D8 | C8, opp);
            let r1: u64 = if short {
                0u64 | G8
            } else {
                0u64
            };
            if long {
                r1 | C8
            } else {
                r1
            }
        } else {
            0
        }
    }
}

impl King {
    /// The king attack masks per square.
    pub fn get_move_masks(tables: &AttackTables) -> (r: Vec<u64>)
        ensures
            r@ == tables.king_attacks@,
    {
        tables.king_attacks.clone()
    }

    /// The squares a king on the lowest square of `location` can step to.
    pub fn compute_possible_moves(
        location: u64,
        chessboard: &Chessboard,
        tables: &AttackTables,
        turn_color: Color,
    ) -> (r: u64)
        requires
            location != 0,
            tables.wf(),
        ensures
            r == tables.king_attacks[u64_trailing_zeros(location) as int] & !(if turn_color
                == Color::White {
                chessboard.white_pieces
            } else {
                chessboard.black_pieces
            }),
    {
        tables.king_attacks[square_of(location) as usize] & !own_side(chessboard, turn_color)
    }

    /// The destinations of the castling moves of `turn_color` that its
    /// rights, the empty squares between king and rook, and the unattacked
    /// squares the king crosses allow.
    pub fn compute_possible_castling_moves(
        chessboard: &Chessboard,
        tables: &AttackTables,
        turn_color: Color,
    ) -> (r: u64)
        requires
            chessboard.wf(),
            tables.wf(),
        ensures
            r == castle_targets_spec(chessboard@, *tables, turn_color),
    {
        let opp = turn_color.opposite();
        let king = chessboard.get_piece(turn_color, Piece::King);
        let mut r: u64 = 0;
        match turn_color {
            Color::White => {
                if E1 & king != 0 {
                    if chessboard.state.can_white_king_castle && !chessboard.any_occupied_square(
                        F1 | G1,
                    ) && !chessboard.any_attacked_squared_by_side(tables, E1 | F1 | G1, opp) {
                        r = r | G1;
                    }
                    if chessboard.state.can_white_queen_castle && !chessboard.any_occupied_square(
                        B1 | C1 | D1,
                    ) && !chessboard.any_attacked_squared_by_side(tables, E1 | D1 | C1, opp) {
                        r = r | C1;
                    }
                }
            },
            Color::Black => {
                if E8 & king != 0 {
                    if chessboard.state.can_black_king_castle && !chessboard.any_occupied_square(
                        F8 | G8,
                    ) && !chessboard.any_attacked_squared_by_side(tables, E8 | F8 | G8, opp) {
                        r = r | G8;
                    }
                    if chessboard.state.can_black_queen_castle && !chessboard.any_occupied_square(
                        B8 | C8 | D8,
                    ) && !chessboard.any_attacked_squared_by_side(tables, E8 | D8 | C8, opp) {
                        r = r | C8;
                    }
                }
            },
        }
        r
    }
}

impl Bishop {
    /// The squares a bishop on the lowest square of `location` can move to.
    pub fn compute_possible_moves(
        location: u64,
        chessboard: &Chessboard,
        tables: &AttackTables,
        turn_color: Color,
    ) -> (r: u64)
        requires
            location != 0,
            tables.wf(),
        ensures
            r == Bishop::rays_spec(location, chessboard, tables) & !(if turn_color == Color::White {
                chessboard.white_pieces
            } else {
                chessboard.black_pieces
            }),
    {
        Bishop::rays(location, chessboard, tables) & !own_side(chessboard, turn_color)
    }

    /// The magic-table bishop attacks from the lowest square of `location`.
    pub open spec fn rays_spec(location: u64, chessboard: &Chessboard, tables: &AttackTables) -> u64 {
        crate::attacks::bishop_lookup_spec(
            *tables,
            u64_trailing_zeros(location) as int,
            chessboard.white_pieces | chessboard.black_pieces,
        )
    }

    /// The bishop attacks from the lowest square of `location` under the
    /// current occupancy, by magic lookup.
    pub fn rays(location: u64, chessboard: &Chessboard, tables: &AttackTables) -> (r: u64)
        requires
            location != 0,
            tables.wf(),
        ensures
            r == Bishop::rays_spec(location, chessboard, tables),
    {
        tables.bishop_lookup(square_of(location), chessboard.get_all_pieces())
    }
}

impl Rook {
    /// The squares a rook on the lowest square of `location` can move to.
    pub fn compute_possible_moves(
        location: u64,
        chessboard: &Chessboard,
        tables: &AttackTables,
        turn_color: Color,
    ) -> (r: u64)
        requires
            location != 0,
            tables.wf(),
        ensures
            r == Rook::rays_spec(location, chessboard, tables) & !(if turn_color == Color::White {
                chessboard.white_pieces
            } else {
                chessboard.black_pieces
            }),
    {
        Rook::rays(location, chessboard, tables) & !own_side(chessboard, turn_color)
    }

    /// The magic-table rook attacks from the lowest square of `location`.
    pub open spec fn rays_spec(location: u64, chessboard: &Chessboard, tables: &AttackTables) -> u64 {
        crate::attacks::rook_lookup_spec(
            *tables,
            u64_trailing_zeros(location) as int,
            chessboard.white_pieces | chessboard.black_pieces,
        )
    }

    /// The rook attacks from the lowest square of `location` under the
    /// current occupancy, by magic lookup.
    pub fn rays(location: u64, chessboard: &Chessboard, tables: &AttackTables) -> (r: u64)
        requires
            location != 0,
            tables.wf(),
        ensures
            r == Rook::rays_spec(location, chessboard, tables),
    {
        tables.rook_lookup(square_of(location), chessboard.get_all_pieces())
    }
}

impl Queen {
    /// The squares a queen on the lowest square of `location` can move to:
    /// the union of the rook and bishop moves from there.
    pub fn compute_possible_moves(
        location: u64,
        chessboard: &Chessboard,
        tables: &AttackTables,
        turn_color: Color,
    ) -> (r: u64)
        requires
            location != 0,
            tables.wf(),
        ensures
            r == Rook::rays_spec(location, chessboard, tables) & !(if turn_color == Color::White {
                chessboard.white_pieces
            } else {
                chessboard.black_pieces
            }) | Bishop::rays_spec(location, chessboard, tables) & !(if turn_color
                == Color::White {
                chessboard.white_pieces
            } else {
                chessboard.black_pieces
            }),
    {
        Rook::compute_possible_moves(location, chessboard, tables, turn_color)
            | Bishop::compute_possible_moves(location, chessboard, tables, turn_color)
    }
}

impl SuperPiece {
    /// The rook lines of every square on an empty board.
    pub fn rook_rays(tables: &AttackTables) -> (r: Vec<u64>)
        ensures
            r@ == tables.rook_rays@,
    {
        tables.rook_rays.clone()
    }

    /// The bishop diagonals of every square on an empty board.
    pub fn bishop_rays(tables: &AttackTables) -> (r: Vec<u64>)
        ensures
            r@ == tables.bishop_rays@,
    {
        tables.bishop_rays.clone()
    }
}

} // verus!
