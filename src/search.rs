//! Negamax alpha-beta search with a transposition table.

use vstd::prelude::*;
use std::collections::HashMap;
use crate::board::{Chessboard, MAX_PLY};
use crate::attacks::in_check_spec;
use crate::board::{made, BoardModel};
use crate::evaluation::{eval_value, Evaluation};
use crate::makemove::lemma_make_unmake;
use crate::moves::Move;
use crate::movegen::{
    all_generated, generate_moves, generated_from, is_legal, legal_moves, pseudo_legal_moves,
    leaves_king_safe, safe_moves,
};
use crate::tables::AttackTables;
use crate::types::Color;

verus! {

broadcast use vstd::std_specs::hash::group_hash_axioms;

/// A score larger than any evaluation.
pub const INFINITY: i32 = 1_000_000;

/// How a stored score bounds the true score.
#[derive(Clone, Copy, Debug, PartialEq, Eq, Structural)]
pub enum NodeType {
    /// The score is exact.
    Exact,
    /// The true score is at least the stored one.
    Lowerbound,
    /// The true score is at most the stored one.
    Upperbound,
    /// The entry holds no bound.
    Unbounded,
}

/// A transposition-table entry.
#[derive(Clone, Copy, Debug, PartialEq, Eq, Structural)]
pub struct TTEntry {
    /// What the value means.
    pub flag: NodeType,
    /// The remaining depth the value was searched to.
    pub depth: u32,
    /// The score, from the side to move's view.
    pub value: i32,
}

impl TTEntry {
    /// An entry that bounds nothing.
    pub fn new() -> (r: TTEntry)
        ensures
            r.flag == NodeType::Unbounded,
            r.depth == 0,
            r.value == 0,
    {
        TTEntry { flag: NodeType::Unbounded, depth: 0, value: 0 }
    }
}

/// Why a search returned no move.
#[derive(Clone, Copy, Debug, PartialEq, Eq, Structural)]
pub enum SearchError {
    /// The side to move has no legal move.
    NoLegalMove,
}

/// The classification of a searched score against the window it was searched
/// with.
pub open spec fn node_type_of(best: i32, alpha_orig: i32, beta: i32) -> NodeType {
    if best <= alpha_orig {
        NodeType::Upperbound
    } else if best >= beta {
        NodeType::Lowerbound
    } else {
        NodeType::Exact
    }
}

/// The state of the move loop of a negamax node: the table, the raised
/// lower bound, the best score so far, whether a legal move was found, and
/// whether the window closed.
pub struct LoopState {
    pub tt: Map<u64, TTEntry>,
    pub alpha: int,
    pub best: int,
    pub any_legal: bool,
    pub cut: bool,
}

/// The negamax score of `b` for the side to move (`color` 1 for white, -1
/// for black) searched `depth` plies with window `[alpha, beta]` and table
/// `tt`, with the table afterwards. At depth 0 it is `color` times the
/// evaluation. Otherwise a table entry for the position's hash, searched at
/// least as deep and in range, is applied first: an exact one is returned, a
/// lower bound raises `alpha`, an upper bound lowers `beta`, and a closed
/// window returns the entry's value. Else the legal moves are searched in
/// generation order (see `negamax_loop`); with none, the evaluation is
/// returned; with some, the best score is returned and stored, classified
/// against the original `alpha` and the current `beta`.
pub open spec fn negamax_spec(
    b: BoardModel,
    t: AttackTables,
    tt: Map<u64, TTEntry>,
    depth: nat,
    alpha: int,
    beta: int,
    color: int,
) -> (int, Map<u64, TTEntry>)
    decreases depth, 1int, 0int,
{
    if depth == 0 {
        (color * eval_value(b, t), tt)
    } else {
        let key = b.state.zobrist_hash_key;
        let e = tt[key];
        let probe = tt.contains_key(key) && e.depth >= depth && -INFINITY <= e.value <= INFINITY;
        if probe && e.flag == NodeType::Exact {
            (e.value as int, tt)
        } else {
            let a1 = if probe && e.flag == NodeType::Lowerbound && e.value > alpha {
                e.value as int
            } else {
                alpha
            };
            let b1 = if probe && e.flag == NodeType::Upperbound && e.value < beta {
                e.value as int
            } else {
                beta
            };
            if probe && a1 >= b1 {
                (e.value as int, tt)
            } else {
                let st = negamax_loop(
                    b,
                    t,
                    pseudo_legal_moves(b, t),
                    0,
                    depth,
                    b1,
                    color,
                    LoopState { tt, alpha: a1, best: -INFINITY as int, any_legal: false, cut: false },
                );
                if !st.any_legal {
                    (color * eval_value(b, t), st.tt)
                } else {
                    let flag = if st.best <= alpha {
                        NodeType::Upperbound
                    } else if st.best >= b1 {
                        NodeType::Lowerbound
                    } else {
                        NodeType::Exact
                    };
                    (
                        st.best,
                        st.tt.insert(
                            key,
                            TTEntry { flag, depth: depth as u32, value: st.best as i32 },
                        ),
                    )
                }
            }
        }
    }
}

/// The move loop of a negamax node from move `i` of `ms`: each move that
/// leaves the king safe is searched one ply less deep with the negated
/// window, its negated score raises the best score and `alpha`; the loop
/// stops once `alpha` reaches `beta`.
pub open spec fn negamax_loop(
    b: BoardModel,
    t: AttackTables,
    ms: Seq<Move>,
    i: int,
    depth: nat,
    beta: int,
    color: int,
    st: LoopState,
) -> LoopState
    decreases depth, 0int, ms.len() - i,
{
    if i < 0 || i >= ms.len() || st.cut || depth == 0 {
        st
    } else {
        let m = ms[i];
        let st1 = if leaves_king_safe(b, t, m) {
            let (v, tt2) = negamax_spec(
                made(b, t.zobrist, m),
                t,
                st.tt,
                (depth - 1) as nat,
                -beta,
                -st.alpha,
                -color,
            );
            let best = if -v > st.best {
                -v
            } else {
                st.best
            };
            let alpha = if best > st.alpha {
                best
            } else {
                st.alpha
            };
            LoopState { tt: tt2, alpha, best, any_legal: true, cut: false }
        } else {
            st
        };
        negamax_loop(b, t, ms, i + 1, depth, beta, color, LoopState { cut: st1.alpha >= beta, ..st1 })
    }
}

/// The state of the root loop: the table, the best move so far and its score.
pub struct RootState {
    pub tt: Map<u64, TTEntry>,
    pub best: Option<Move>,
    pub best_score: int,
}

/// The root loop of a search of depth `depth` from move `i` of `ms`: each
/// move that leaves the king safe is scored by a full-window negamax of the
/// position after it, negated; the first move of strictly highest score is
/// kept.
pub open spec fn root_loop(
    b: BoardModel,
    t: AttackTables,
    ms: Seq<Move>,
    i: int,
    depth: nat,
    color: int,
    st: RootState,
) -> RootState
    decreases ms.len() - i,
{
    if i < 0 || i >= ms.len() {
        st
    } else {
        let m = ms[i];
        let st1 = if leaves_king_safe(b, t, m) {
            let (v, tt2) = negamax_spec(
                made(b, t.zobrist, m),
                t,
                st.tt,
                depth,
                -INFINITY as int,
                INFINITY as int,
                -color,
            );
            if st.best is None || -v > st.best_score {
                RootState { tt: tt2, best: Some(m), best_score: -v }
            } else {
                RootState { tt: tt2, ..st }
            }
        } else {
            st
        };
        root_loop(b, t, ms, i + 1, depth, color, st1)
    }
}

/// The colour sign of the side to move of `b`.
pub open spec fn color_of(b: BoardModel) -> int {
    if b.state.turn_color == Color::White {
        1
    } else {
        -1
    }
}

/// What a search of depth `depth` from `b` with table `tt` ends with.
pub open spec fn think_spec(b: BoardModel, t: AttackTables, tt: Map<u64, TTEntry>, depth: nat) -> RootState {
    root_loop(
        b,
        t,
        pseudo_legal_moves(b, t),
        0,
        depth,
        color_of(b),
        RootState { tt, best: None, best_score: -INFINITY as int },
    )
}

/// A search to a fixed depth with its transposition table, keyed by the
/// position hash.
pub struct Search {
    /// The depth searched below each root move.
    pub depth: u32,
    /// Scores of positions already searched.
    pub tt: HashMap<u64, TTEntry>,
}

impl Search {
    /// A search of depth `depth` with an empty table.
    pub fn new(depth: u32) -> (r: Search)
        ensures
            r.depth == depth,
            r.tt@ == Map::<u64, TTEntry>::empty(),
    {
        Search { depth, tt: HashMap::new() }
    }

    /// The negamax score of the position for the side to move (`color` is 1
    /// when white moves, -1 otherwise) within the window `[alpha, beta]`,
    /// reading and filling the table as `negamax_spec` says. The position is
    /// unchanged.
    pub fn negamax(
        &mut self,
        chessboard: &mut Chessboard,
        tables: &AttackTables,
        depth: u32,
        alpha: i32,
        beta: i32,
        color: i32,
    ) -> (r: i32)
        requires
            old(chessboard).wf(),
            tables.wf(),
            old(chessboard).ply_index + depth < MAX_PLY,
            -INFINITY <= alpha <= INFINITY,
            -INFINITY <= beta <= INFINITY,
            color == 1 || color == -1,
        ensures
            final(chessboard)@ == old(chessboard)@,
            final(chessboard).wf(),
            -INFINITY <= r <= INFINITY,
            (r as int, final(self).tt@) == negamax_spec(
                old(chessboard)@,
                *tables,
                old(self).tt@,
                depth as nat,
                alpha as int,
                beta as int,
                color as int,
            ),
        decreases depth,
    {
        if depth == 0 {
            return color * Evaluation::evaluate(chessboard, tables);
        }
        let ghost b0 = chessboard@;
        let ghost tt0 = self.tt@;
        let key = chessboard.state.zobrist_hash_key;
        let alpha_orig = alpha;
        let mut alpha = alpha;
        let mut beta = beta;
        match self.tt.get(&key) {
            Some(entry) => {
                if entry.depth >= depth && -INFINITY <= entry.value && entry.value <= INFINITY {
                    match entry.flag {
                        NodeType::Exact => {
                            return entry.value;
                        },
                        NodeType::Lowerbound => {
                            if entry.value > alpha {
                                alpha = entry.value;
                            }
                        },
                        NodeType::Upperbound => {
                            if entry.value < beta {
                                beta = entry.value;
                            }
                        },
                        NodeType::Unbounded => {},
                    }
                    if alpha >= beta {
                        return entry.value;
                    }
                }
            },
            None => {},
        }
        let side = chessboard.state.turn_color;
        let moves = generate_moves(chessboard, tables);
        let mut best: i32 = -INFINITY;
        let mut any_legal = false;
        let mut cut = false;
        let mut i: usize = 0;
        let ghost target = negamax_loop(
            b0,
            *tables,
            moves@,
            0,
            depth as nat,
            beta as int,
            color as int,
            LoopState { tt: tt0, alpha: alpha as int, best: -INFINITY as int, any_legal: false, cut: false },
        );
        while i < moves.len() && !cut
            invariant
                chessboard.wf(),
                tables.wf(),
                chessboard@ == b0,
                chessboard.ply_index + depth < MAX_PLY,
                depth > 0,
                -INFINITY <= alpha <= INFINITY,
                -INFINITY <= beta <= INFINITY,
                -INFINITY <= best <= INFINITY,
                color == 1 || color == -1,
                side == b0.state.turn_color,
                moves@ == pseudo_legal_moves(b0, *tables),
                i <= moves.len(),
                target == negamax_loop(
                    b0,
                    *tables,
                    moves@,
                    i as int,
                    depth as nat,
                    beta as int,
                    color as int,
                    LoopState { tt: self.tt@, alpha: alpha as int, best: best as int, any_legal, cut },
                ),
            decreases moves.len() - i,
        {
            let mv = moves[i];
            let ghost st = LoopState { tt: self.tt@, alpha: alpha as int, best: best as int, any_legal, cut };
            chessboard.make(tables, &mv);
            if !chessboard.is_in_check(tables, side) {
                any_legal = true;
                let score = -self.negamax(chessboard, tables, depth - 1, -beta, -alpha, -color);
                if score > best {
                    best = score;
                }
                if best > alpha {
                    alpha = best;
                }
            }
            chessboard.unmake(&mv);
            proof {
                lemma_make_unmake(b0, tables.zobrist, mv);
            }
            if alpha >= beta {
                cut = true;
            }
            i = i + 1;
        }
        if !any_legal {
            return color * Evaluation::evaluate(chessboard, tables);
        }
        let flag = if best <= alpha_orig {
            NodeType::Upperbound
        } else if best >= beta {
            NodeType::Lowerbound
        } else {
            NodeType::Exact
        };
        self.tt.insert(key, TTEntry { flag, depth, value: best });
        best
    }

    /// The root move of best negamax score for the side to move, the first of
    /// equal ones; an error when no move is legal. The position is unchanged.
    pub fn think(&mut self, chessboard: &mut Chessboard, tables: &AttackTables) -> (r: Result<
        Move,
        SearchError,
    >)
        requires
            old(chessboard).wf(),
            tables.wf(),
            old(chessboard).ply_index + self.depth + 1 < MAX_PLY,
        ensures
            final(chessboard)@ == old(chessboard)@,
            final(chessboard).wf(),
            r is Ok ==> is_legal(old(chessboard)@, *tables, r->Ok_0),
            r is Err <==> legal_moves(old(chessboard)@, *tables).len() == 0,
            ({
                let st = think_spec(old(chessboard)@, *tables, old(self).tt@, old(self).depth as nat);
                &&& final(self).tt@ == st.tt
                &&& r is Ok <==> st.best is Some
                &&& r is Ok ==> r->Ok_0 == st.best->Some_0
            }),
    {
        let ghost b0 = chessboard@;
        let ghost target = think_spec(b0, *tables, self.tt@, self.depth as nat);
        let moves = generate_moves(chessboard, tables);
        let side = chessboard.state.turn_color;
        let color: i32 = match side {
            Color::White => 1,
            Color::Black => -1,
        };
        let depth = self.depth;
        let mut best: Option<Move> = None;
        let mut best_score: i32 = -INFINITY;
        let mut i: usize = 0;
        assert(moves@.subrange(0, 0).len() == 0);
        while i < moves.len()
            invariant
                chessboard.wf(),
                tables.wf(),
                chessboard@ == b0,
                chessboard.ply_index + depth + 1 < MAX_PLY,
                color == 1 || color == -1,
                all_generated(b0, moves@),
                -INFINITY <= best_score <= INFINITY,
                best is Some ==> is_legal(b0, *tables, best->Some_0),
                side == b0.state.turn_color,
                moves@ == pseudo_legal_moves(b0, *tables),
                i <= moves.len(),
                best is None <==> safe_moves(b0, *tables, moves@.subrange(0, i as int)).len() == 0,
                color == color_of(b0),
                depth == old(self).depth,
                target == root_loop(
                    b0,
                    *tables,
                    moves@,
                    i as int,
                    depth as nat,
                    color as int,
                    RootState { tt: self.tt@, best, best_score: best_score as int },
                ),
            decreases moves.len() - i,
        {
            let mv = moves[i];
            assert(moves@.subrange(0, i as int + 1).drop_last() =~= moves@.subrange(0, i as int));
            chessboard.make(tables, &mv);
            if !chessboard.is_in_check(tables, side) {
                let score = -self.negamax(chessboard, tables, depth, -INFINITY, INFINITY, -color);
                if best.is_none() || score > best_score {
                    best = Some(mv);
                    best_score = score;
                    assert(generated_from(b0, moves@[i as int]));
                    assert(is_legal(b0, *tables, mv));
                }
            }
            chessboard.unmake(&mv);
            proof {
                lemma_make_unmake(b0, tables.zobrist, mv);
            }
            i = i + 1;
        }
        assert(moves@.subrange(0, i as int) =~= moves@);
        match best {
            Some(mv) => Ok(mv),
            None => Err(SearchError::NoLegalMove),
        }
    }
}

} // verus!
