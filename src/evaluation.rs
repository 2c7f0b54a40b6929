//! Static evaluation: material plus piece-square bonuses, from white's side.

use vstd::prelude::*;
use crate::attacks::in_check_spec;
use crate::board::{BoardModel, Chessboard, MAX_PLY};
use crate::movegen::{generate_legal_moves, legal_moves};
use crate::tables::AttackTables;
use crate::types::Color;

verus! {

/// The score of a side that is checkmated, from the other side's view.
pub const MATE_SCORE: i32 = 10000;

/// The distance of a file or rank index from the nearer edge, 0 to 3.
pub open spec fn edge_distance(x: int) -> int {
    if x < 4 {
        x
    } else {
        7 - x
    }
}

/// The pawn bonus of square `pos` seen from the pawn's own side: rewards
/// advancing, and the centre files in the middle ranks.
pub open spec fn pawn_bonus(pos: int) -> int {
    let r = pos / 8;
    let cf = edge_distance(pos % 8);
    if r == 0 || r == 7 {
        0
    } else if r == 1 {
        1
    } else if r == 2 {
        if cf == 3 {
            2
        } else {
            1
        }
    } else if r == 3 {
        if cf >= 1 {
            cf
        } else {
            1
        }
    } else if r == 4 {
        if cf >= 2 {
            3
        } else {
            2
        }
    } else if r == 5 {
        3
    } else {
        4
    }
}

/// The knight bonus of square `pos`: grows towards the centre.
pub open spec fn knight_bonus(pos: int) -> int {
    let d = edge_distance(pos / 8) + edge_distance(pos % 8) - 3;
    3 + if d > 0 {
        d
    } else {
        0
    }
}

/// The king score of square `pos`, its material included: rewards the back
/// ranks away from the centre files.
pub open spec fn king_bonus(pos: int) -> int {
    let r = pos / 8;
    if r == 0 || r == 7 {
        if edge_distance(pos % 8) == 3 {
            1001
        } else {
            1002
        }
    } else {
        1000
    }
}

/// The value of the piece of bitboard `index` (0 to 11) on square `sq`, from
/// its own side's view.
pub open spec fn piece_value(index: int, sq: int) -> int {
    let pos = if index < 6 {
        sq
    } else {
        63 - sq
    };
    let kind = index % 6;
    if kind == 0 {
        1 + pawn_bonus(pos)
    } else if kind == 1 {
        5
    } else if kind == 2 {
        3 + knight_bonus(pos)
    } else if kind == 3 {
        3
    } else if kind == 4 {
        9
    } else {
        king_bonus(pos)
    }
}

/// The first bitboard, in index order from `from`, that holds square `sq`.
pub open spec fn first_holder(p: Seq<u64>, sq: int, from: int) -> int
    decreases 12 - from,
{
    if from >= 12 {
        12
    } else if p[from] & (1u64 << sq as u64) != 0 {
        from
    } else {
        first_holder(p, sq, from + 1)
    }
}

/// The signed contribution of square `sq`: the value of its piece, positive
/// for white and negative for black, 0 when empty.
pub open spec fn square_score(p: Seq<u64>, sq: int) -> int {
    let i = first_holder(p, sq, 0);
    if i >= 12 {
        0
    } else if i < 6 {
        piece_value(i, sq)
    } else {
        -piece_value(i, sq)
    }
}

/// The sum of the square contributions of squares `0 .. n`.
pub open spec fn static_score(p: Seq<u64>, n: int) -> int
    decreases n,
{
    if n <= 0 {
        0
    } else {
        static_score(p, n - 1) + square_score(p, n - 1)
    }
}

/// The evaluation of `b` from white's view: the mate score when the side to
/// move is in check with no legal move, the static score otherwise.
pub open spec fn eval_value(b: BoardModel, t: AttackTables) -> int {
    if in_check_spec(b, t, b.state.turn_color) && legal_moves(b, t).len() == 0 {
        mated_score(b.state.turn_color)
    } else {
        static_score(b.pieces, 64)
    }
}

/// The evaluation of a position whose side to move is mated.
pub open spec fn mated_score(side: Color) -> int {
    if side == Color::White {
        -10000
    } else {
        10000
    }
}

fn edge_distance_exec(x: u64) -> (r: u64)
    requires
        x < 8,
    ensures
        r == edge_distance(x as int),
{
    if x < 4 {
        x
    } else {
        7 - x
    }
}

fn pawn_bonus_exec(pos: u64) -> (r: i32)
    requires
        pos < 64,
    ensures
        r == pawn_bonus(pos as int),
        0 <= r <= 4,
{
    let r = pos / 8;
    let cf = edge_distance_exec(pos % 8);
    if r == 0 || r == 7 {
        0
    } else if r == 1 {
        1
    } else if r == 2 {
        if cf == 3 {
            2
        } else {
            1
        }
    } else if r == 3 {
        if cf >= 1 {
            cf as i32
        } else {
            1
        }
    } else if r == 4 {
        if cf >= 2 {
            3
        } else {
            2
        }
    } else if r == 5 {
        3
    } else {
        4
    }
}

fn knight_bonus_exec(pos: u64) -> (r: i32)
    requires
        pos < 64,
    ensures
        r == knight_bonus(pos as int),
        3 <= r <= 6,
{
    let d = edge_distance_exec(pos / 8) + edge_distance_exec(pos % 8);
    3 + if d > 3 {
        (d - 3) as i32
    } else {
        0
    }
}

fn king_bonus_exec(pos: u64) -> (r: i32)
    requires
        pos < 64,
    ensures
        r == king_bonus(pos as int),
        1000 <= r <= 1002,
{
    let r = pos / 8;
    if r == 0 || r == 7 {
        if edge_distance_exec(pos % 8) == 3 {
            1001
        } else {
            1002
        }
    } else {
        1000
    }
}

fn piece_value_exec(index: usize, sq: u64) -> (r: i32)
    requires
        index < 12,
        sq < 64,
    ensures
        r == piece_value(index as int, sq as int),
        0 <= r <= 1002,
{
    let pos: u64 = if index < 6 {
        sq
    } else {
        63 - sq
    };
    let kind = index % 6;
    if kind == 0 {
        1 + pawn_bonus_exec(pos)
    } else if kind == 1 {
        5
    } else if kind == 2 {
        3 + knight_bonus_exec(pos)
    } else if kind == 3 {
        3
    } else if kind == 4 {
        9
    } else {
        king_bonus_exec(pos)
    }
}

/// The static evaluator.
pub struct Evaluation;

impl Evaluation {
    /// Material plus piece-square bonuses, from white's view, without the
    /// mate test.
    pub fn static_evaluate(chessboard: &Chessboard) -> (r: i32)
        requires
            chessboard.wf(),
        ensures
            r == static_score(chessboard.pieces@, 64),
            -64128 <= r <= 64128,
    {
        let mut score: i32 = 0;
        let mut sq: u64 = 0;
        while sq < 64
            invariant
                chessboard.wf(),
                sq <= 64,
                score == static_score(chessboard.pieces@, sq as int),
                -1002 * sq <= score <= 1002 * sq,
            decreases 64 - sq,
        {
            let mask = 1u64 << sq;
            let mut i: usize = 0;
            while i < 12 && chessboard.pieces[i] & mask == 0
                invariant
                    chessboard.wf(),
                    i <= 12,
                    sq < 64,
                    mask == 1u64 << sq,
                    first_holder(chessboard.pieces@, sq as int, 0) == first_holder(
                        chessboard.pieces@,
                        sq as int,
                        i as int,
                    ),
                decreases 12 - i,
            {
                i = i + 1;
            }
            if i < 12 {
                let v = piece_value_exec(i, sq);
                if i < 6 {
                    score = score + v;
                } else {
                    score = score - v;
                }
            }
            sq = sq + 1;
        }
        score
    }

    /// The static score from white's view, or the mate score (-10000 when
    /// white is mated, 10000 when black is) when the side to move is in
    /// check and has no legal move. The position is unchanged.
    pub fn evaluate(chessboard: &mut Chessboard, tables: &AttackTables) -> (r: i32)
        requires
            old(chessboard).wf(),
            old(chessboard).ply_index < MAX_PLY,
            tables.wf(),
        ensures
            final(chessboard)@ == old(chessboard)@,
            final(chessboard).wf(),
            r == eval_value(old(chessboard)@, *tables),
            -64128 <= r <= 64128,
    {
        let side = chessboard.state.turn_color;
        if chessboard.is_in_check(tables, side) {
            let legal = generate_legal_moves(chessboard, tables);
            if legal.len() == 0 {
                return match side {
                    Color::White => -MATE_SCORE,
                    Color::Black => MATE_SCORE,
                };
            }
        }
        Evaluation::static_evaluate(chessboard)
    }
}

} // verus!
