//! Make and unmake, and the laws that tie them together.

use vstd::prelude::*;
use crate::board::{
    apply_delta, castling_consistent, ep_hash, made, mask_hash, move_delta, sat_inc, toggle_model,
    unmade, BoardModel, Chessboard, MoveDelta, Toggle, A1, A8, D1, D8, E1, E8, F1, F8, H1, H8,
    MAX_PLY,
};
use crate::moves::{Move, word_kind, DOUBLE_PAWN_PUSH, EP_CAPTURE, KING_CASTLE, QUEEN_CASTLE};
use crate::state::{State, Undo};
use crate::tables::{AttackTables, Zobrist};
use crate::types::{Color, Piece, get_piece_index};

verus! {

broadcast use vstd::std_specs::bits::axiom_u64_trailing_zeros;

/// The toggles of `mv` played by `side`, capturing `captured`.
pub fn compute_delta(mv: &Move, side: Color, captured: Option<Piece>) -> (d: MoveDelta)
    ensures
        d == move_delta(*mv, side, captured),
        d.first.index < 12,
        d.second.index < 12,
        d.third.index < 12,
{
    let k = mv.word & 0xF;
    let white = side == Color::White;
    let capture = match captured {
        Some(p) => {
            if k & 4 != 0 {
                Toggle { index: get_piece_index(side.opposite(), p), mask: mv.to }
            } else {
                Toggle { index: 0, mask: 0 }
            }
        },
        None => Toggle { index: 0, mask: 0 },
    };
    let none = Toggle { index: 0, mask: 0 };
    if k == KING_CASTLE {
        MoveDelta {
            first: Toggle { index: get_piece_index(side, Piece::King), mask: mv.from ^ mv.to },
            second: Toggle {
                index: get_piece_index(side, Piece::Rook),
                mask: if white {
                    H1 | F1
                } else {
                    H8 | F8
                },
            },
            third: none,
        }
    } else if k == QUEEN_CASTLE {
        MoveDelta {
            first: Toggle { index: get_piece_index(side, Piece::King), mask: mv.from ^ mv.to },
            second: Toggle {
                index: get_piece_index(side, Piece::Rook),
                mask: if white {
                    A1 | D1
                } else {
                    A8 | D8
                },
            },
            third: none,
        }
    } else if k == EP_CAPTURE {
        let victim = if white {
            mv.to >> 8
        } else {
            mv.to << 8
        };
        MoveDelta {
            first: Toggle { index: get_piece_index(side, Piece::Pawn), mask: mv.from ^ mv.to },
            second: Toggle { index: get_piece_index(side.opposite(), Piece::Pawn), mask: victim },
            third: none,
        }
    } else if k & 8 != 0 {
        MoveDelta {
            first: Toggle { index: get_piece_index(side, Piece::Pawn), mask: mv.from },
            second: Toggle { index: get_piece_index(side, mv.promotion_piece()), mask: mv.to },
            third: capture,
        }
    } else {
        MoveDelta {
            first: Toggle { index: get_piece_index(side, mv.piece_type), mask: mv.from ^ mv.to },
            second: capture,
            third: none,
        }
    }
}

/// The Zobrist terms of the squares of `mask` on bitboard `index`.
pub fn toggle_hash(keys: &Vec<u64>, index: usize, mask: u64) -> (r: u64)
    requires
        keys.len() == 768,
        index < 12,
    ensures
        r == mask_hash(keys@, index as int, mask),
{
    let mut m = mask;
    let mut h: u64 = 0;
    let ghost whole = mask_hash(keys@, index as int, mask);
    proof {
        crate::bits::lemma_word_algebra(whole, 0, 0);
    }
    while m != 0
        invariant
            keys.len() == 768,
            index < 12,
            h ^ mask_hash(keys@, index as int, m) == whole,
        decreases m,
    {
        proof {
            crate::bits::lemma_clear_lowest_decreases(m);
        }
        let sq = m.trailing_zeros();
        let key = keys[index * 64 + sq as usize];
        let ghost rest = mask_hash(keys@, index as int, m & vstd::prelude::sub(m, 1));
        proof {
            crate::bits::lemma_word_algebra(h, key, rest);
        }
        h = h ^ key;
        m = m & (m - 1);
    }
    proof {
        crate::bits::lemma_word_algebra(h, 0, 0);
    }
    h
}

/// The Zobrist term of an en-passant target.
fn ep_key(z: &Zobrist, ep: Option<u64>) -> (r: u64)
    requires
        z.wf(),
    ensures
        r == ep_hash(*z, ep),
{
    match ep {
        Some(sq) => z.en_passant_file[(sq % 8) as usize],
        None => 0,
    }
}

fn sat_inc_exec(x: u32) -> (r: u32)
    ensures
        r == sat_inc(x),
{
    if x < u32::MAX {
        x + 1
    } else {
        x
    }
}

impl Chessboard {
    fn apply_toggles(&mut self, d: MoveDelta)
        requires
            old(self).wf(),
            d.first.index < 12,
            d.second.index < 12,
            d.third.index < 12,
        ensures
            final(self).wf(),
            final(self)@ == apply_delta(old(self)@, d),
    {
        self.toggle_piece(d.first.index, d.first.mask);
        self.toggle_piece(d.second.index, d.second.mask);
        self.toggle_piece(d.third.index, d.third.mask);
    }

    /// Plays `mv` for the side to move: pushes on the undo stack the kind of
    /// the piece it removes and the state before it, moves the pieces, and
    /// updates clocks, castling rights, en-passant target, side to move and
    /// hash. Legality is not checked.
    pub fn make(&mut self, tables: &AttackTables, mv: &Move)
        requires
            old(self).wf(),
            old(self).ply_index < MAX_PLY,
            tables.zobrist.wf(),
        ensures
            final(self).wf(),
            final(self)@ == made(old(self)@, tables.zobrist, *mv),
            castling_consistent(final(self)@),
            final(self).state.en_passant_square is Some <==> word_kind(mv.word) == DOUBLE_PAWN_PUSH,
            word_kind(mv.word) == DOUBLE_PAWN_PUSH ==> final(self).state.en_passant_square == Some(
                ((crate::moves::word_from(mv.word) + crate::moves::word_to(mv.word)) / 2) as u64,
            ),
            crate::consistency::position_ok(old(self)@) && crate::movegen::generated_from(
                old(self)@,
                *mv,
            ) ==> crate::consistency::position_ok(final(self)@),
    {
        let ghost b0 = self@;
        let side = self.state.turn_color;
        let d = compute_delta(mv, side, mv.captured_piece);
        let prev = self.state;
        self.state_stack.push(Undo { captured_piece: mv.captured_piece, state: prev });
        self.ply_index = self.ply_index + 1;
        self.apply_toggles(d);
        let k = mv.word & 0xF;
        let king_home = (self.pieces[5] & E1) != 0;
        let black_king_home = (self.pieces[11] & E8) != 0;
        let ep = if k == DOUBLE_PAWN_PUSH {
            Some(((mv.word >> 10) as u64 + ((mv.word >> 4) & 0x3F) as u64) / 2)
        } else {
            None
        };
        let mut s = State {
            turn_color: side.opposite(),
            full_move_number: if side == Color::Black {
                sat_inc_exec(prev.full_move_number)
            } else {
                prev.full_move_number
            },
            half_move_clock: if mv.piece_type == Piece::Pawn || k & 4 != 0 {
                0
            } else {
                sat_inc_exec(prev.half_move_clock)
            },
            can_white_king_castle: prev.can_white_king_castle && king_home && (self.pieces[1] & H1)
                != 0,
            can_white_queen_castle: prev.can_white_queen_castle && king_home && (self.pieces[1]
                & A1) != 0,
            can_black_king_castle: prev.can_black_king_castle && black_king_home && (self.pieces[7]
                & H8) != 0,
            can_black_queen_castle: prev.can_black_queen_castle && black_king_home && (
            self.pieces[7] & A8) != 0,
            en_passant_square: ep,
            captured_piece: mv.captured_piece,
            zobrist_hash_key: prev.zobrist_hash_key,
        };
        let z = &tables.zobrist;
        let dh = toggle_hash(&z.piece_square, d.first.index, d.first.mask) ^ toggle_hash(
            &z.piece_square,
            d.second.index,
            d.second.mask,
        ) ^ toggle_hash(&z.piece_square, d.third.index, d.third.mask);
        let h = prev.zobrist_hash_key ^ dh ^ z.compute_castling_rights_hash(&prev)
            ^ z.compute_castling_rights_hash(&s) ^ ep_key(z, prev.en_passant_square) ^ ep_key(z, ep)
            ^ z.black_to_move;
        s.zobrist_hash_key = h;
        self.state = s;
        assert(self.state_stack@ == b0.stack.push(Undo { captured_piece: mv.captured_piece, state: b0.state }));
        proof {
            lemma_make_keeps_castling_consistent(b0, tables.zobrist, *mv);
            lemma_make_sets_en_passant(b0, tables.zobrist, *mv);
            if crate::consistency::position_ok(b0) && crate::movegen::generated_from(b0, *mv) {
                crate::consistency::lemma_generated_move_keeps_invariants(b0, tables.zobrist, *mv);
            }
        }
    }

    /// Takes back `mv`, the last move made: pops its undo record, restores
    /// the saved state, and puts the pieces back, reinstating the captured
    /// piece the record names.
    pub fn unmake(&mut self, mv: &Move)
        requires
            old(self).wf(),
            old(self).ply_index > 0,
        ensures
            final(self).wf(),
            final(self)@ == unmade(old(self)@, *mv),
            forall|b: BoardModel, z: Zobrist|
                b.pieces.len() == 12 && old(self)@ == #[trigger] made(b, z, *mv) ==> final(self)@
                    == b,
    {
        let ghost b0 = self@;
        let popped = self.state_stack.pop();
        match popped {
            Some(top) => {
                self.ply_index = self.ply_index - 1;
                let d = compute_delta(mv, top.state.turn_color, top.captured_piece);
                self.apply_toggles(d);
                self.state = top.state;
                assert(self.state_stack@ == b0.stack.drop_last());
            },
            None => {},
        }
        assert forall|b: BoardModel, z: Zobrist|
            b.pieces.len() == 12 && b0 == #[trigger] made(b, z, *mv) implies self@ == b by {
            lemma_make_unmake(b, z, *mv);
        }
    }
}

/// A toggle's effect on bitboard `i`.
pub open spec fn toggle_at(t: Toggle, i: int) -> u64 {
    if t.index as int == i {
        t.mask
    } else {
        0
    }
}

/// A toggle's effect on the white (or black) aggregate.
pub open spec fn toggle_side(t: Toggle, white: bool) -> u64 {
    if (t.index < 6) == white {
        t.mask
    } else {
        0
    }
}

/// One toggle in closed form: each bitboard and aggregate is exclusive-ored
/// with the toggle's mask where it applies.
pub proof fn lemma_toggle_closed(b: BoardModel, t: Toggle)
    requires
        b.pieces.len() == 12,
        t.index < 12,
    ensures
        toggle_model(b, t).pieces.len() == 12,
        forall|i: int|
            0 <= i < 12 ==> #[trigger] toggle_model(b, t).pieces[i] == b.pieces[i] ^ toggle_at(t, i),
        toggle_model(b, t).white == b.white ^ toggle_side(t, true),
        toggle_model(b, t).black == b.black ^ toggle_side(t, false),
{
    assert forall|i: int| 0 <= i < 12 && i != t.index as int implies #[trigger] toggle_model(
        b,
        t,
    ).pieces[i] == b.pieces[i] ^ toggle_at(t, i) by {
        crate::bits::lemma_word_algebra(b.pieces[i], 0, 0);
    }
    crate::bits::lemma_word_algebra(b.white, 0, 0);
    crate::bits::lemma_word_algebra(b.black, 0, 0);
}

proof fn lemma_xor_twice(x: u64, p: u64, q: u64, r: u64)
    by (bit_vector)
    ensures
        ((((((x ^ p) ^ q) ^ r) ^ p) ^ q) ^ r) == x,
{
}

/// The three toggles of a move undo themselves: applying them twice gives
/// back the bitboards and aggregates.
pub proof fn lemma_delta_involution(b: BoardModel, d: MoveDelta)
    requires
        b.pieces.len() == 12,
        d.first.index < 12,
        d.second.index < 12,
        d.third.index < 12,
    ensures
        apply_delta(apply_delta(b, d), d) == b,
{
    let b1 = toggle_model(b, d.first);
    let b2 = toggle_model(b1, d.second);
    let b3 = toggle_model(b2, d.third);
    let b4 = toggle_model(b3, d.first);
    let b5 = toggle_model(b4, d.second);
    let b6 = toggle_model(b5, d.third);
    lemma_toggle_closed(b, d.first);
    lemma_toggle_closed(b1, d.second);
    lemma_toggle_closed(b2, d.third);
    lemma_toggle_closed(b3, d.first);
    lemma_toggle_closed(b4, d.second);
    lemma_toggle_closed(b5, d.third);
    assert(forall|x: u64, p: u64, q: u64, r: u64|
        #[trigger] ((((((x ^ p) ^ q) ^ r) ^ p) ^ q) ^ r) == x) by {
        assert forall|x: u64, p: u64, q: u64, r: u64|
            #[trigger] ((((((x ^ p) ^ q) ^ r) ^ p) ^ q) ^ r) == x by {
            lemma_xor_twice(x, p, q, r);
        }
    }
    assert forall|i: int| 0 <= i < 12 implies #[trigger] b6.pieces[i] == b.pieces[i] by {
        let x = b.pieces[i];
        let p = toggle_at(d.first, i);
        let q = toggle_at(d.second, i);
        let r = toggle_at(d.third, i);
        assert(((((((x ^ p) ^ q) ^ r) ^ p) ^ q) ^ r) == x);
    }
    assert(b6.pieces =~= b.pieces);
    let (wp, wq, wr) = (
        toggle_side(d.first, true),
        toggle_side(d.second, true),
        toggle_side(d.third, true),
    );
    assert(((((((b.white ^ wp) ^ wq) ^ wr) ^ wp) ^ wq) ^ wr) == b.white);
    let (kp, kq, kr) = (
        toggle_side(d.first, false),
        toggle_side(d.second, false),
        toggle_side(d.third, false),
    );
    assert(((((((b.black ^ kp) ^ kq) ^ kr) ^ kp) ^ kq) ^ kr) == b.black);
}

pub proof fn lemma_delta_indices(mv: Move, side: Color, captured: Option<Piece>)
    ensures
        move_delta(mv, side, captured).first.index < 12,
        move_delta(mv, side, captured).second.index < 12,
        move_delta(mv, side, captured).third.index < 12,
{
}

/// Unmaking a move right after making it restores the position exactly:
/// bitboards, aggregates, state record with its hash, and undo stack.
pub proof fn lemma_make_unmake(b: BoardModel, z: Zobrist, mv: Move)
    requires
        b.pieces.len() == 12,
    ensures
        unmade(made(b, z, mv), mv) == b,
{
    let m = made(b, z, mv);
    let d = move_delta(mv, b.state.turn_color, mv.captured_piece);
    lemma_delta_indices(mv, b.state.turn_color, mv.captured_piece);
    lemma_delta_involution(b, d);
    assert(m.stack.drop_last() =~= b.stack);
    let u = unmade(m, mv);
    assert(u.pieces == apply_delta(apply_delta(b, d), d).pieces);
}

/// The position after making each move of `moves` in turn.
pub open spec fn made_all(b: BoardModel, z: Zobrist, moves: Seq<Move>) -> BoardModel
    decreases moves.len(),
{
    if moves.len() == 0 {
        b
    } else {
        made(made_all(b, z, moves.drop_last()), z, moves.last())
    }
}

/// The position after unmaking the moves of `moves`, last first.
pub open spec fn unmade_all(b: BoardModel, moves: Seq<Move>) -> BoardModel
    decreases moves.len(),
{
    if moves.len() == 0 {
        b
    } else {
        unmade_all(unmade(b, moves.last()), moves.drop_last())
    }
}

/// Making moves never changes the number of bitboards.
pub proof fn lemma_made_all_len(b: BoardModel, z: Zobrist, moves: Seq<Move>)
    requires
        b.pieces.len() == 12,
    ensures
        made_all(b, z, moves).pieces.len() == 12,
    decreases moves.len(),
{
    if moves.len() > 0 {
        lemma_made_all_len(b, z, moves.drop_last());
        let x = made_all(b, z, moves.drop_last());
        lemma_delta_indices(moves.last(), x.state.turn_color, moves.last().captured_piece);
    }
}

/// Making a sequence of moves and then unmaking them in reverse order gives
/// back the initial position.
pub proof fn lemma_make_unmake_sequence(b: BoardModel, z: Zobrist, moves: Seq<Move>)
    requires
        b.pieces.len() == 12,
    ensures
        unmade_all(made_all(b, z, moves), moves) == b,
    decreases moves.len(),
{
    if moves.len() > 0 {
        let rest = moves.drop_last();
        let x = made_all(b, z, rest);
        lemma_made_all_len(b, z, rest);
        lemma_make_unmake(x, z, moves.last());
        lemma_make_unmake_sequence(b, z, rest);
    }
}

/// After any make, each castling right implies the king on its home square
/// and the rook on that wing's corner.
pub proof fn lemma_make_keeps_castling_consistent(b: BoardModel, z: Zobrist, mv: Move)
    ensures
        castling_consistent(made(b, z, mv)),
{
}

/// After any make, the en-passant target is set exactly when the move was a
/// double pawn push, and it is the square the pawn skipped.
pub proof fn lemma_make_sets_en_passant(b: BoardModel, z: Zobrist, mv: Move)
    ensures
        made(b, z, mv).state.en_passant_square is Some <==> word_kind(mv.word) == DOUBLE_PAWN_PUSH,
        word_kind(mv.word) == DOUBLE_PAWN_PUSH ==> made(b, z, mv).state.en_passant_square
            == Some(((crate::moves::word_from(mv.word) + crate::moves::word_to(mv.word)) / 2) as u64),
{
}

} // verus!
