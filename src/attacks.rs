//! Attack detection and the per-piece target sets.

use vstd::prelude::*;
use vstd::std_specs::bits::u64_trailing_zeros;
use crate::board::{BoardModel, Chessboard};
use crate::bits::{index_subset, lemma_subset_has_index, popcount};
use crate::rays::{
    bishop_attacks_spec, bishop_mask_spec, king_attack_spec, knight_attack_spec,
    lemma_attacks_relevant, pawn_attack_spec, rook_attacks_spec, rook_mask_spec,
};
use crate::tables::{pattern_stored, slider_mask_spec, slider_spec, slot_of, AttackTables, SliderTable};
use crate::types::{Color, Piece, board_index, color_index, opposite};

verus! {

broadcast use vstd::std_specs::bits::axiom_u64_trailing_zeros;

/// The rook attacks the magic table gives for `sq` under occupancy `occ`.
pub open spec fn rook_lookup_spec(t: AttackTables, sq: int, occ: u64) -> u64 {
    t.rook.attacks@[slot_of(true, t.rook.magics@[sq], occ)]
}

/// The bishop attacks the magic table gives for `sq` under occupancy `occ`.
pub open spec fn bishop_lookup_spec(t: AttackTables, sq: int, occ: u64) -> u64 {
    t.bishop.attacks@[slot_of(false, t.bishop.magics@[sq], occ)]
}

proof fn lemma_mask_twice(occ: u64, k: u64)
    by (bit_vector)
    ensures
        (occ & k) & !k == 0,
        (occ & k) & k == occ & k,
{
}

proof fn lemma_slider_lookup(rook: bool, table: SliderTable, sq: int, occ: u64)
    requires
        table.wf(rook),
        0 <= sq < 64,
    ensures
        table.attacks@[slot_of(rook, table.magics@[sq], occ)] == slider_spec(
            rook,
            sq,
            occ & slider_mask_spec(rook, sq),
        ),
{
    let m = table.magics@[sq];
    let x = occ & m.mask;
    lemma_mask_twice(occ, m.mask);
    lemma_subset_has_index(x, m.mask);
    let n = popcount(m.mask) as u64;
    let j = choose|j: u64| j < (1u64 << n) && #[trigger] index_subset(j, n, m.mask) == x;
    assert(pattern_stored(rook, table.attacks@, table.magics@[sq], j));
}

/// On valid tables the magic lookup of a square gives the ray-scan attacks
/// of the relevant occupancy: the occupied squares of the slider's mask.
pub proof fn lemma_lookup_is_ray_scan(t: AttackTables, sq: int, occ: u64)
    requires
        t.wf(),
        0 <= sq < 64,
    ensures
        rook_lookup_spec(t, sq, occ) == rook_attacks_spec(sq, occ),
        bishop_lookup_spec(t, sq, occ) == bishop_attacks_spec(sq, occ),
{
    lemma_slider_lookup(true, t.rook, sq, occ);
    lemma_slider_lookup(false, t.bishop, sq, occ);
    lemma_attacks_relevant(sq, occ);
}

/// Whether a piece of side `by` attacks square `sq` in `b`, by the movement
/// rules: knight and king steps, pawn diagonals, and rook, bishop and queen
/// rays stopped by the first occupied square. Sliders are first ruled out
/// by their rays on an empty board.
pub open spec fn attacked_by_rays(b: BoardModel, sq: int, by: Color) -> bool {
    let occ = b.white | b.black;
    let rq = b.pieces[board_index(by, Piece::Rook)] | b.pieces[board_index(by, Piece::Queen)];
    let bq = b.pieces[board_index(by, Piece::Bishop)] | b.pieces[board_index(by, Piece::Queen)];
    let defender_white = opposite(by) == Color::White;
    ||| knight_attack_spec(sq as u64) & b.pieces[board_index(by, Piece::Knight)] != 0
    ||| rook_attacks_spec(sq, 0) & rq != 0 && rook_attacks_spec(sq, occ) & rq != 0
    ||| bishop_attacks_spec(sq, 0) & bq != 0 && bishop_attacks_spec(sq, occ) & bq != 0
    ||| pawn_attack_spec(defender_white, sq as u64) & b.pieces[board_index(by, Piece::Pawn)] != 0
    ||| king_attack_spec(sq as u64) & b.pieces[board_index(by, Piece::King)] != 0
}

/// On valid tables, attack detection through the tables is attack detection
/// by the movement rules.
pub proof fn lemma_attacked_by_rays(b: BoardModel, t: AttackTables, sq: int, by: Color)
    requires
        t.wf(),
        0 <= sq < 64,
    ensures
        attacked_spec(b, t, sq, by) == attacked_by_rays(b, sq, by),
{
    lemma_lookup_is_ray_scan(t, sq, b.white | b.black);
    assert(t.pawn_attacks@[sq] == pawn_attack_spec(true, sq as u64));
}

/// Whether a piece of side `by` attacks square `sq` in `b`.
pub open spec fn attacked_spec(b: BoardModel, t: AttackTables, sq: int, by: Color) -> bool {
    let occ = b.white | b.black;
    let rq = b.pieces[board_index(by, Piece::Rook)] | b.pieces[board_index(by, Piece::Queen)];
    let bq = b.pieces[board_index(by, Piece::Bishop)] | b.pieces[board_index(by, Piece::Queen)];
    ||| t.knight_attacks@[sq] & b.pieces[board_index(by, Piece::Knight)] != 0
    ||| t.rook_rays@[sq] & rq != 0 && rook_lookup_spec(t, sq, occ) & rq != 0
    ||| t.bishop_rays@[sq] & bq != 0 && bishop_lookup_spec(t, sq, occ) & bq != 0
    ||| t.pawn_attacks@[color_index(opposite(by)) * 64 + sq] & b.pieces[board_index(
        by,
        Piece::Pawn,
    )] != 0
    ||| t.king_attacks@[sq] & b.pieces[board_index(by, Piece::King)] != 0
}

/// Whether the king of `side` stands attacked; false when `side` has no king.
pub open spec fn in_check_spec(b: BoardModel, t: AttackTables, side: Color) -> bool {
    let king = b.pieces[board_index(side, Piece::King)];
    king != 0 && attacked_spec(b, t, u64_trailing_zeros(king) as int, opposite(side))
}

/// Whether every square of `squares` is free of attacks by `by`.
pub open spec fn none_attacked_spec(b: BoardModel, t: AttackTables, squares: u64, by: Color) -> bool
    decreases squares,
{
    if squares == 0 {
        true
    } else {
        proof {
            crate::bits::lemma_clear_lowest_decreases(squares);
        }
        !attacked_spec(b, t, u64_trailing_zeros(squares) as int, by) && none_attacked_spec(
            b,
            t,
            squares & vstd::prelude::sub(squares, 1),
            by,
        )
    }
}

impl Chessboard {
    /// Whether a piece of `attacking_side` attacks square `square`.
    pub fn is_square_attacked(&self, tables: &AttackTables, square: u64, attacking_side: Color) -> (r:
        bool)
        requires
            self.wf(),
            tables.wf(),
            square < 64,
        ensures
            r == attacked_spec(self@, *tables, square as int, attacking_side),
            r == attacked_by_rays(self@, square as int, attacking_side),
    {
        proof {
            lemma_attacked_by_rays(self@, *tables, square as int, attacking_side);
        }
        let sq = square as usize;
        let knights = self.get_piece(attacking_side, Piece::Knight);
        if tables.knight_attacks[sq] & knights != 0 {
            return true;
        }
        let queens = self.get_piece(attacking_side, Piece::Queen);
        let rooks_queens = self.get_piece(attacking_side, Piece::Rook) | queens;
        if tables.rook_rays[sq] & rooks_queens != 0 && tables.rook_lookup(
            square,
            self.get_all_pieces(),
        ) & rooks_queens != 0 {
            return true;
        }
        let bishops_queens = self.get_piece(attacking_side, Piece::Bishop) | queens;
        if tables.bishop_rays[sq] & bishops_queens != 0 && tables.bishop_lookup(
            square,
            self.get_all_pieces(),
        ) & bishops_queens != 0 {
            return true;
        }
        let pawns = self.get_piece(attacking_side, Piece::Pawn);
        if tables.pawn_attacks[attacking_side.opposite().index() * 64 + sq] & pawns != 0 {
            return true;
        }
        let king = self.get_piece(attacking_side, Piece::King);
        tables.king_attacks[sq] & king != 0
    }

    /// Whether no square of `squares` is attacked by `attacking_side`.
    pub fn any_attacked_squared_by_side(
        &self,
        tables: &AttackTables,
        squares: u64,
        attacking_side: Color,
    ) -> (r: bool)
        requires
            self.wf(),
            tables.wf(),
        ensures
            r == !none_attacked_spec(self@, *tables, squares, attacking_side),
    {
        let mut rest = squares;
        while rest != 0
            invariant
                self.wf(),
                tables.wf(),
                none_attacked_spec(self@, *tables, squares, attacking_side) == none_attacked_spec(
                    self@,
                    *tables,
                    rest,
                    attacking_side,
                ),
            decreases rest,
        {
            proof {
                crate::bits::lemma_clear_lowest_decreases(rest);
            }
            let sq = rest.trailing_zeros() as u64;
            if self.is_square_attacked(tables, sq, attacking_side) {
                return true;
            }
            rest = rest & (rest - 1);
        }
        false
    }

    /// Whether the king of `side` is attacked; false when `side` has no king.
    pub fn is_in_check(&self, tables: &AttackTables, side: Color) -> (r: bool)
        requires
            self.wf(),
            tables.wf(),
        ensures
            r == in_check_spec(self@, *tables, side),
    {
        let king = self.get_piece(side, Piece::King);
        if king == 0 {
            return false;
        }
        self.is_square_attacked(tables, king.trailing_zeros() as u64, side.opposite())
    }
}

} // verus!
