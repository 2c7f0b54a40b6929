//! Pseudo-legal move generation, legal filtering and perft.

use vstd::prelude::*;
use vstd::std_specs::bits::u64_trailing_zeros;
use crate::attacks::{bishop_lookup_spec, in_check_spec, none_attacked_spec, rook_lookup_spec};
use crate::board::{
    BoardModel, Chessboard, MAX_PLY, B1, B8, C1, C8, D1, D8, E1, E8, F1, F8, G1, G8,
};
use crate::makemove::lemma_make_unmake;
use crate::moves::{
    Move, CAPTURE, DOUBLE_PAWN_PUSH, EP_CAPTURE, KING_CASTLE, KNIGHT_PROMOTION,
    KNIGHT_PROMOTION_CAPTURE, QUEEN_CASTLE, QUIET,
};
use crate::rays::{RANK_3, RANK_6};
use crate::tables::AttackTables;
use crate::consistency::{lemma_union_disjoint, move_fits, parts_fit, position_ok};
use crate::fen::pieces_consistent;
use crate::types::{Color, Piece, board_index, color_index, opposite};

verus! {
broadcast use vstd::std_specs::bits::axiom_u64_trailing_zeros;

/// A generated move: its cached masks agree with its word, a piece of the
/// side to move, of the move's kind, stands on its source square, and in a
/// consistent position the move fits the position.
pub open spec fn generated_from(b: BoardModel, m: Move) -> bool {
    &&& m.wf()
    &&& m.from & b.pieces[board_index(b.state.turn_color, m.piece_type)] != 0
    &&& position_ok(b) ==> move_fits(b, m)
}

/// The squares of the side to move.
pub open spec fn own_squares(b: BoardModel) -> u64 {
    if b.state.turn_color == Color::White {
        b.white
    } else {
        b.black
    }
}

/// A square that is neither the mover's nor on any opponent bitboard is empty.
proof fn lemma_empty_target(b: BoardModel, to: u64)
    requires
        pieces_consistent(b),
        to & own_squares(b) == 0,
        forall|p: Piece| #[trigger] b.pieces[board_index(opposite(b.state.turn_color), p)] & to == 0,
    ensures
        to & (b.white | b.black) == 0,
{
    let opp = opposite(b.state.turn_color);
    let start = color_index(opp) * 6;
    assert forall|j: int| start <= j < start + 6 implies #[trigger] (b.pieces[j] & to) == 0 by {
        let p = if j - start == 0 {
            Piece::Pawn
        } else if j - start == 1 {
            Piece::Rook
        } else if j - start == 2 {
            Piece::Knight
        } else if j - start == 3 {
            Piece::Bishop
        } else if j - start == 4 {
            Piece::Queen
        } else {
            Piece::King
        };
        assert(board_index(opp, p) == j);
    }
    lemma_union_disjoint(b.pieces, start, 6, to);
    let w = b.white;
    let k = b.black;
    if b.state.turn_color == Color::White {
        lemma_gen_bits(to, w, k);
    } else {
        lemma_gen_bits(to, w, k);
    }
}

proof fn lemma_kind_bits()
    by (bit_vector)
    ensures
        QUIET & 8 == 0 && QUIET & 4 == 0,
        DOUBLE_PAWN_PUSH & 8 == 0 && DOUBLE_PAWN_PUSH & 4 == 0,
        CAPTURE & 8 == 0 && CAPTURE & 4 != 0,
        QUIET & 0xf == QUIET && DOUBLE_PAWN_PUSH & 0xf == DOUBLE_PAWN_PUSH,
        CAPTURE & 0xf == CAPTURE && EP_CAPTURE & 0xf == EP_CAPTURE,
        KING_CASTLE & 0xf == KING_CASTLE && QUEEN_CASTLE & 0xf == QUEEN_CASTLE,
        (1u64 << 4u64) == E1 && (1u64 << 6u64) == G1 && (1u64 << 2u64) == C1,
        (1u64 << 60u64) == E8 && (1u64 << 62u64) == G8 && (1u64 << 58u64) == C8,
        forall|x: u64, y: u64| #[trigger] (x & y) == y & x,
        forall|x: u64, y: u64| #[trigger] ((x & !y) & y) == 0,
{
}

proof fn lemma_bit_outside(t: u64, targets: u64, own: u64)
    by (bit_vector)
    requires
        t < 64,
        (1u64 << t) & targets != 0,
        targets & own == 0,
    ensures
        (1u64 << t) & own == 0,
{
}

/// A legal move: one of the pseudo-legal moves, generated, and not leaving
/// the mover's king attacked.
pub open spec fn is_legal(b: BoardModel, t: AttackTables, m: Move) -> bool {
    &&& pseudo_legal_moves(b, t).contains(m)
    &&& generated_from(b, m)
    &&& !in_check_spec(crate::board::made(b, t.zobrist, m), t, b.state.turn_color)
}

/// Making `m` in `b` does not leave the mover's king attacked.
pub open spec fn leaves_king_safe(b: BoardModel, t: AttackTables, m: Move) -> bool {
    !in_check_spec(crate::board::made(b, t.zobrist, m), t, b.state.turn_color)
}

/// The moves of `ms` that leave the mover's king safe, in order.
pub open spec fn safe_moves(b: BoardModel, t: AttackTables, ms: Seq<Move>) -> Seq<Move>
    decreases ms.len(),
{
    if ms.len() == 0 {
        seq![]
    } else {
        let r = safe_moves(b, t, ms.drop_last());
        if leaves_king_safe(b, t, ms.last()) {
            r.push(ms.last())
        } else {
            r
        }
    }
}

/// The legal moves of the side to move: the pseudo-legal moves that leave
/// its king safe, in generation order.
pub open spec fn legal_moves(b: BoardModel, t: AttackTables) -> Seq<Move> {
    safe_moves(b, t, pseudo_legal_moves(b, t))
}

/// No move of `ms` is kept exactly when none leaves the king safe.
pub proof fn lemma_safe_moves_empty(b: BoardModel, t: AttackTables, ms: Seq<Move>)
    ensures
        safe_moves(b, t, ms).len() == 0 <==> forall|j: int|
            0 <= j < ms.len() ==> !leaves_king_safe(b, t, #[trigger] ms[j]),
    decreases ms.len(),
{
    if ms.len() > 0 {
        lemma_safe_moves_empty(b, t, ms.drop_last());
        if safe_moves(b, t, ms).len() == 0 {
            assert forall|j: int| 0 <= j < ms.len() implies !leaves_king_safe(
                b,
                t,
                #[trigger] ms[j],
            ) by {
                if j < ms.len() - 1 {
                    assert(ms.drop_last()[j] == ms[j]);
                }
            }
        } else {
            if forall|j: int| 0 <= j < ms.len() ==> !leaves_king_safe(b, t, #[trigger] ms[j]) {
                assert forall|j: int| 0 <= j < ms.drop_last().len() implies !leaves_king_safe(
                    b,
                    t,
                    #[trigger] ms.drop_last()[j],
                ) by {
                    assert(ms.drop_last()[j] == ms[j]);
                }
                assert(!leaves_king_safe(b, t, ms[ms.len() - 1]));
            }
        }
    }
}

/// `a + b`, held at the largest `u64`.
pub open spec fn sat_add(a: u64, b: u64) -> u64 {
    if a + b > u64::MAX {
        u64::MAX
    } else {
        (a + b) as u64
    }
}

/// The leaves of depth `depth` (at least 1) below the moves of `ms` made in
/// `b`, counting only moves that leave the mover's king safe.
pub open spec fn perft_list(b: BoardModel, t: AttackTables, ms: Seq<Move>, depth: nat) -> u64
    decreases depth, ms.len(),
{
    if ms.len() == 0 || depth == 0 {
        0
    } else {
        let m = ms.last();
        let child = crate::board::made(b, t.zobrist, m);
        let below: u64 = if !leaves_king_safe(b, t, m) {
            0
        } else if depth == 1 {
            1
        } else {
            perft_list(child, t, pseudo_legal_moves(child, t), (depth - 1) as nat)
        };
        sat_add(perft_list(b, t, ms.drop_last(), depth), below)
    }
}

/// The number of leaves of the legal move tree of depth `depth` from `b`:
/// 1 at depth 0, else the sum over the pseudo-legal moves that leave the
/// king safe of the count below each (sums held at the largest `u64`).
pub open spec fn perft_spec(b: BoardModel, t: AttackTables, depth: nat) -> u64 {
    if depth == 0 {
        1
    } else {
        perft_list(b, t, pseudo_legal_moves(b, t), depth)
    }
}

/// Joining two lists of generated moves gives a list of generated moves.
pub proof fn lemma_generated_concat(b: BoardModel, s1: Seq<Move>, s2: Seq<Move>)
    requires
        all_generated(b, s1),
        all_generated(b, s2),
    ensures
        all_generated(b, s1 + s2),
{
    assert forall|i: int| 0 <= i < (s1 + s2).len() implies #[trigger] generated_from(
        b,
        (s1 + s2)[i],
    ) by {
        if i < s1.len() {
            assert(generated_from(b, s1[i]));
        } else {
            assert(generated_from(b, s2[i - s1.len()]));
        }
    }
}

/// Every move of `moves` is a generated move of `b`.
pub open spec fn all_generated(b: BoardModel, moves: Seq<Move>) -> bool {
    forall|i: int| 0 <= i < moves.len() ==> #[trigger] generated_from(b, moves[i])
}

proof fn lemma_word_fields(from: u16, to: u16, kind: u16)
    by (bit_vector)
    requires
        from < 64,
        to < 64,
        kind < 16,
    ensures
        ((from << 10u16) | (to << 4u16) | kind) >> 10u16 == from,
        (((from << 10u16) | (to << 4u16) | kind) >> 4u16) & 0x3f == to,
        ((from << 10u16) | (to << 4u16) | kind) & 0xf == kind,
{
}

/// The move from square `from` to square `to` with tag `kind`, as the
/// generator builds it.
pub open spec fn move_of(from: u64, to: u64, kind: u16, piece: Piece, captured: Option<Piece>) -> Move {
    Move {
        word: (((from as u16) << 10u16) | ((to as u16) << 4u16) | kind) as u16,
        piece_type: piece,
        captured_piece: captured,
        from: 1u64 << from,
        to: 1u64 << to,
    }
}

/// The kind of the piece of `side` on the squares of `mask`, looking at
/// pawns, knights, bishops, rooks, queens and king in that order.
pub open spec fn piece_on_spec(b: BoardModel, side: Color, mask: u64) -> Option<Piece> {
    if mask & b.pieces[board_index(side, Piece::Pawn)] != 0 {
        Some(Piece::Pawn)
    } else if mask & b.pieces[board_index(side, Piece::Knight)] != 0 {
        Some(Piece::Knight)
    } else if mask & b.pieces[board_index(side, Piece::Bishop)] != 0 {
        Some(Piece::Bishop)
    } else if mask & b.pieces[board_index(side, Piece::Rook)] != 0 {
        Some(Piece::Rook)
    } else if mask & b.pieces[board_index(side, Piece::Queen)] != 0 {
        Some(Piece::Queen)
    } else if mask & b.pieces[board_index(side, Piece::King)] != 0 {
        Some(Piece::King)
    } else {
        None
    }
}

/// The moves of the non-pawn piece `piece` on square `from` to the squares
/// of `targets`, lowest square first: a capture (tag 4) onto an opponent
/// piece, a quiet move (tag 0) onto an empty square, none onto the opponent
/// king.
pub open spec fn piece_moves_spec(b: BoardModel, from: u64, targets: u64, piece: Piece) -> Seq<Move>
    decreases targets,
{
    if targets == 0 {
        seq![]
    } else {
        proof {
            crate::bits::lemma_clear_lowest_decreases(targets);
        }
        let to = u64_trailing_zeros(targets) as u64;
        let captured = piece_on_spec(b, opposite(b.state.turn_color), 1u64 << to);
        let here = match captured {
            Some(Piece::King) => seq![],
            Some(_) => seq![move_of(from, to, CAPTURE, piece, captured)],
            None => seq![move_of(from, to, QUIET, piece, None)],
        };
        here + piece_moves_spec(b, from, targets & vstd::prelude::sub(targets, 1), piece)
    }
}

/// The moves of a pawn on square `from` to one target square `to`.
pub open spec fn pawn_moves_to(b: BoardModel, from: u64, to: u64) -> Seq<Move> {
    let side = b.state.turn_color;
    let opp = opposite(side);
    let captured = piece_on_spec(b, opp, 1u64 << to);
    let victim = if side == Color::White {
        (1u64 << to) >> 8u64
    } else {
        (1u64 << to) << 8u64
    };
    if captured == Some(Piece::King) {
        seq![]
    } else if to < 8 || to >= 56 {
        let base: u16 = if captured is Some {
            KNIGHT_PROMOTION_CAPTURE
        } else {
            KNIGHT_PROMOTION
        };
        seq![
            move_of(from, to, base, Piece::Pawn, captured),
            move_of(from, to, (base + 1) as u16, Piece::Pawn, captured),
            move_of(from, to, (base + 2) as u16, Piece::Pawn, captured),
            move_of(from, to, (base + 3) as u16, Piece::Pawn, captured),
        ]
    } else if captured is Some {
        seq![move_of(from, to, CAPTURE, Piece::Pawn, captured)]
    } else if b.state.en_passant_square == Some(to) {
        if victim & b.pieces[board_index(opp, Piece::Pawn)] != 0 {
            seq![move_of(from, to, EP_CAPTURE, Piece::Pawn, Some(Piece::Pawn))]
        } else {
            seq![]
        }
    } else if from + 16 == to || to + 16 == from {
        seq![move_of(from, to, DOUBLE_PAWN_PUSH, Piece::Pawn, None)]
    } else {
        seq![move_of(from, to, QUIET, Piece::Pawn, None)]
    }
}

/// The moves of a pawn on square `from` to the squares of `targets`, lowest
/// square first: four promotions (tags 8-11, 12-15 with a capture) onto the
/// last rank, else a capture (4), an en-passant capture (5) when the
/// opponent pawn stands behind the target, a double push (1) or a quiet
/// move (0); none onto the opponent king.
pub open spec fn pawn_moves_spec(b: BoardModel, from: u64, targets: u64) -> Seq<Move>
    decreases targets,
{
    if targets == 0 {
        seq![]
    } else {
        proof {
            crate::bits::lemma_clear_lowest_decreases(targets);
        }
        pawn_moves_to(b, from, u64_trailing_zeros(targets) as u64) + pawn_moves_spec(
            b,
            from,
            targets & vstd::prelude::sub(targets, 1),
        )
    }
}

/// The squares a piece of kind `piece` of the side to move on square `sq`
/// may move to (castling aside).
pub open spec fn targets_spec(b: BoardModel, t: AttackTables, piece: Piece, sq: u64) -> u64 {
    let side = b.state.turn_color;
    let own = own_squares(b);
    let all = b.white | b.black;
    match piece {
        Piece::Pawn => pawn_targets_spec(b, t, side, sq),
        Piece::Knight => t.knight_attacks@[sq as int] & !own,
        Piece::Bishop => bishop_lookup_spec(t, sq as int, all) & !own,
        Piece::Rook => rook_lookup_spec(t, sq as int, all) & !own,
        Piece::Queen => (rook_lookup_spec(t, sq as int, all) | bishop_lookup_spec(t, sq as int, all))
            & !own,
        Piece::King => t.king_attacks@[sq as int] & !own,
    }
}

/// The moves of the pieces of kind `piece` of the side to move standing on
/// the squares of `froms`, lowest square first.
pub open spec fn kind_moves_spec(b: BoardModel, t: AttackTables, piece: Piece, froms: u64) -> Seq<Move>
    decreases froms,
{
    if froms == 0 {
        seq![]
    } else {
        proof {
            crate::bits::lemma_clear_lowest_decreases(froms);
        }
        let from = u64_trailing_zeros(froms) as u64;
        let targets = targets_spec(b, t, piece, from);
        let here = if piece == Piece::Pawn {
            pawn_moves_spec(b, from, targets)
        } else {
            piece_moves_spec(b, from, targets, piece)
        };
        here + kind_moves_spec(b, t, piece, froms & vstd::prelude::sub(froms, 1))
    }
}

/// The castling moves of the side to move, king's wing first (see
/// `castle_targets_spec` for the conditions).
pub open spec fn castle_moves_spec(b: BoardModel, t: AttackTables) -> Seq<Move> {
    let side = b.state.turn_color;
    let occ = b.white | b.black;
    let king = b.pieces[board_index(side, Piece::King)];
    let opp = opposite(side);
    if side == Color::White {
        if E1 & king != 0 {
            let short = b.state.can_white_king_castle && (F1 | G1) & occ == 0
                && none_attacked_spec(b, t, E1 | F1 | G1, opp);
            let long = b.state.can_white_queen_castle && (B1 | C1 | D1) & occ == 0
                && none_attacked_spec(b, t, E1 | D1 | C1, opp);
            (if short {
                seq![move_of(4, 6, KING_CASTLE, Piece::King, None)]
            } else {
                seq![]
            }) + (if long {
                seq![move_of(4, 2, QUEEN_CASTLE, Piece::King, None)]
            } else {
                seq![]
            })
        } else {
            seq![]
        }
    } else {
        if E8 & king != 0 {
            let short = b.state.can_black_king_castle && (F8 | G8) & occ == 0
                && none_attacked_spec(b, t, E8 | F8 | G8, opp);
            let long = b.state.can_black_queen_castle && (B8 | C8 | D8) & occ == 0
                && none_attacked_spec(b, t, E8 | D8 | C8, opp);
            (if short {
                seq![move_of(60, 62, KING_CASTLE, Piece::King, None)]
            } else {
                seq![]
            }) + (if long {
                seq![move_of(60, 58, QUEEN_CASTLE, Piece::King, None)]
            } else {
                seq![]
            })
        } else {
            seq![]
        }
    }
}

/// The moves of the pieces of kind `piece` of the side to move, castling
/// included for the king.
pub open spec fn piece_kind_moves(b: BoardModel, t: AttackTables, piece: Piece) -> Seq<Move> {
    let side = b.state.turn_color;
    let castles = piece == Piece::King && (if side == Color::White {
        b.state.can_white_king_castle || b.state.can_white_queen_castle
    } else {
        b.state.can_black_king_castle || b.state.can_black_queen_castle
    });
    kind_moves_spec(b, t, piece, b.pieces[board_index(side, piece)]) + if castles {
        castle_moves_spec(b, t)
    } else {
        seq![]
    }
}

/// The pseudo-legal moves of the side to move, in generation order: pawns,
/// rooks, knights, bishops, queens, king.
pub open spec fn pseudo_legal_moves(b: BoardModel, t: AttackTables) -> Seq<Move> {
    piece_kind_moves(b, t, Piece::Pawn) + piece_kind_moves(b, t, Piece::Rook) + piece_kind_moves(
        b,
        t,
        Piece::Knight,
    ) + piece_kind_moves(b, t, Piece::Bishop) + piece_kind_moves(b, t, Piece::Queen)
        + piece_kind_moves(b, t, Piece::King)
}

/// The packed word of a move.
fn encode(from: u64, to: u64, kind: u16) -> (w: u16)
    requires
        from < 64,
        to < 64,
        kind < 16,
    ensures
        w >> 10u16 == from as u16,
        (w >> 4u16) & 0x3f == to as u16,
        w & 0xf == kind,
        w == (((from as u16) << 10u16) | ((to as u16) << 4u16) | kind) as u16,
{
    proof {
        lemma_word_fields(from as u16, to as u16, kind);
    }
    ((from as u16) << 10) | ((to as u16) << 4) | kind
}

proof fn lemma_gen_bits(to: u64, w: u64, k: u64)
    by (bit_vector)
    ensures
        to & w == 0 && k & to == 0 ==> to & (w | k) == 0,
        to & k == 0 && w & to == 0 ==> to & (w | k) == 0,
{
}

proof fn lemma_lowest_bits(rem: u64, bb: u64, t: u64)
    by (bit_vector)
    ensures
        t < 64 && (rem >> t) & 1u64 == 1u64 && rem & !bb == 0 ==> (1u64 << t) & bb != 0,
        rem & !bb == 0 ==> (rem & vstd::prelude::sub(rem, 1)) & !bb == 0,
{
}

proof fn lemma_promo_bits(p: u16, k: u16)
    by (bit_vector)
    ensures
        p < 4 && (k == vstd::prelude::add(8u16, p) || k == vstd::prelude::add(12u16, p)) ==> k & 8
            != 0 && (k & 4 != 0 <==> k == vstd::prelude::add(12u16, p)) && k & 0xf == k && k != 2
            && k != 3 && k != 5,
{
}

proof fn lemma_lowest_in(rem: u64, bb: u64)
    requires
        rem != 0,
        rem & !bb == 0,
    ensures
        (1u64 << u64_trailing_zeros(rem) as u64) & bb != 0,
        (rem & vstd::prelude::sub(rem, 1)) & !bb == 0,
{
    let t = u64_trailing_zeros(rem) as u64;
    assert((rem >> t) & 1u64 == 1u64);
    lemma_lowest_bits(rem, bb, t);
}

/// The kind of the piece of `side` on the squares of `mask`, if any.
pub fn piece_on(board: &Chessboard, side: Color, mask: u64) -> (r: Option<Piece>)
    requires
        board.wf(),
    ensures
        r == piece_on_spec(board@, side, mask),
        r is Some ==> mask & board.pieces[board_index(side, r->Some_0)] != 0,
        r is None ==> forall|p: Piece| board.pieces[#[trigger] board_index(side, p)] & mask == 0,
{
    proof {
        lemma_kind_bits();
    }
    if mask & board.get_piece(side, Piece::Pawn) != 0 {
        Some(Piece::Pawn)
    } else if mask & board.get_piece(side, Piece::Knight) != 0 {
        Some(Piece::Knight)
    } else if mask & board.get_piece(side, Piece::Bishop) != 0 {
        Some(Piece::Bishop)
    } else if mask & board.get_piece(side, Piece::Rook) != 0 {
        Some(Piece::Rook)
    } else if mask & board.get_piece(side, Piece::Queen) != 0 {
        Some(Piece::Queen)
    } else if mask & board.get_piece(side, Piece::King) != 0 {
        Some(Piece::King)
    } else {
        None
    }
}

/// Pushes the move of `piece` from square `from` to square `to` with tag
/// `kind`.
fn push_move(
    board: &Chessboard,
    moves: &mut Vec<Move>,
    from: u64,
    to: u64,
    kind: u16,
    piece: Piece,
    captured: Option<Piece>,
)
    requires
        board.wf(),
        from < 64,
        to < 64,
        kind < 16,
        (1u64 << from) & board.pieces[board_index(board.state.turn_color, piece)] != 0,
        position_ok(board@) ==> parts_fit(board@, 1u64 << from, 1u64 << to, kind, piece, captured),
    ensures
        generated_from(board@, move_of(from, to, kind, piece, captured)),
        final(moves)@ == old(moves)@.push(move_of(from, to, kind, piece, captured)),
{
    let word = encode(from, to, kind);
    let m = Move::from(word, piece, captured);
    moves.push(m);
    assert(generated_from(board@, m));
}

/// Pushes one move per square of `targets` for the piece of kind `piece` on
/// square `from`, tagging captures of pieces of the other side; a square
/// holding the opponent king gives no move.
pub fn add_all_possible_moves(
    board: &Chessboard,
    from: u64,
    targets: u64,
    piece: Piece,
    moves: &mut Vec<Move>,
)
    requires
        board.wf(),
        from < 64,
        (1u64 << from) & board.pieces[board_index(board.state.turn_color, piece)] != 0,
        targets & own_squares(board@) == 0,
    ensures
        all_generated(board@, final(moves)@.subrange(old(moves).len() as int, final(moves).len() as int)),
        final(moves)@ == old(moves)@ + piece_moves_spec(board@, from, targets, piece),
{
    proof {
        lemma_kind_bits();
    }
    let opp = board.state.turn_color.opposite();
    let mut rest = targets;
    proof {
        crate::bits::lemma_word_algebra(targets, 0, 0);
    }
    assert(old(moves)@ + piece_moves_spec(board@, from, targets, piece) =~= moves@
        + piece_moves_spec(board@, from, rest, piece));
    while rest != 0
        invariant
            board.wf(),
            from < 64,
            (1u64 << from) & board.pieces[board_index(board.state.turn_color, piece)] != 0,
            targets & own_squares(board@) == 0,
            rest & !targets == 0,
            old(moves).len() <= moves.len(),
            all_generated(board@, moves@.subrange(old(moves).len() as int, moves.len() as int)),
            opp == opposite(board.state.turn_color),
            old(moves)@ + piece_moves_spec(board@, from, targets, piece) == moves@
                + piece_moves_spec(board@, from, rest, piece),
        decreases rest,
    {
        proof {
            crate::bits::lemma_clear_lowest_decreases(rest);
            lemma_lowest_in(rest, targets);
            lemma_kind_bits();
        }
        let to = rest.trailing_zeros() as u64;
        let ghost m0 = moves@;
        let ghost r0 = rest;
        rest = rest & (rest - 1);
        proof {
            lemma_bit_outside(to, targets, own_squares(board@));
        }
        let captured = piece_on(board, opp, 1u64 << to);
        match captured {
            Some(Piece::King) => {},
            Some(_) => {
                let ghost before_push = moves@;
                push_move(board, moves, from, to, CAPTURE, piece, captured);
                proof {
                    lemma_generated_concat(board@, before_push.subrange(old(moves).len() as int, before_push.len() as int), seq![move_of(from, to, CAPTURE, piece, captured)]);
                    assert(moves@.subrange(old(moves).len() as int, moves.len() as int) =~= before_push.subrange(old(moves).len() as int, before_push.len() as int) + seq![move_of(from, to, CAPTURE, piece, captured)]);
                }
            },
            None => {
                proof {
                    if position_ok(board@) {
                        lemma_empty_target(board@, 1u64 << to);
                    }
                }
                let ghost before_push = moves@;
                push_move(board, moves, from, to, QUIET, piece, None);
                proof {
                    lemma_generated_concat(board@, before_push.subrange(old(moves).len() as int, before_push.len() as int), seq![move_of(from, to, QUIET, piece, None)]);
                    assert(moves@.subrange(old(moves).len() as int, moves.len() as int) =~= before_push.subrange(old(moves).len() as int, before_push.len() as int) + seq![move_of(from, to, QUIET, piece, None)]);
                }
            },
        }
        proof {
            let here = moves@.subrange(m0.len() as int, moves@.len() as int);
            assert(moves@ =~= m0 + here);
            assert(piece_moves_spec(board@, from, r0, piece) == here + piece_moves_spec(
                board@,
                from,
                rest,
                piece,
            ));
            assert(m0 + (here + piece_moves_spec(board@, from, rest, piece)) =~= (m0 + here)
                + piece_moves_spec(board@, from, rest, piece));
        }
    }
    assert(moves@ + piece_moves_spec(board@, from, 0, piece) =~= moves@);
}

/// Pushes the pawn moves from square `from` to the squares of `targets`:
/// four promotions on the last rank, otherwise a capture, an en-passant
/// capture (when the opponent pawn stands behind the target), a double push
/// or a quiet move; a square holding the opponent king gives no move.
pub fn add_all_possible_moves_pawn(board: &Chessboard, from: u64, targets: u64, moves: &mut Vec<Move>)
    requires
        board.wf(),
        from < 64,
        (1u64 << from) & board.pieces[board_index(board.state.turn_color, Piece::Pawn)] != 0,
        targets & own_squares(board@) == 0,
    ensures
        all_generated(board@, final(moves)@.subrange(old(moves).len() as int, final(moves).len() as int)),
        final(moves)@ == old(moves)@ + pawn_moves_spec(board@, from, targets),
{
    proof {
        lemma_kind_bits();
    }
    let side = board.state.turn_color;
    let opp = side.opposite();
    let opp_pawns = board.get_piece(opp, Piece::Pawn);
    let mut rest = targets;
    proof {
        crate::bits::lemma_word_algebra(targets, 0, 0);
    }
    assert(old(moves)@ + pawn_moves_spec(board@, from, targets) =~= moves@ + pawn_moves_spec(
        board@,
        from,
        rest,
    ));
    while rest != 0
        invariant
            board.wf(),
            from < 64,
            side == board.state.turn_color,
            opp == opposite(side),
            opp_pawns == board.pieces[board_index(opp, Piece::Pawn)],
            (1u64 << from) & board.pieces[board_index(board.state.turn_color, Piece::Pawn)] != 0,
            targets & own_squares(board@) == 0,
            rest & !targets == 0,
            old(moves).len() <= moves.len(),
            all_generated(board@, moves@.subrange(old(moves).len() as int, moves.len() as int)),
            old(moves)@ + pawn_moves_spec(board@, from, targets) == moves@ + pawn_moves_spec(
                board@,
                from,
                rest,
            ),
        decreases rest,
    {
        proof {
            crate::bits::lemma_clear_lowest_decreases(rest);
            lemma_lowest_in(rest, targets);
            lemma_kind_bits();
        }
        let to = rest.trailing_zeros() as u64;
        let ghost m0 = moves@;
        let ghost r0 = rest;
        rest = rest & (rest - 1);
        proof {
            lemma_bit_outside(to, targets, own_squares(board@));
        }
        let captured = piece_on(board, opp, 1u64 << to);
        if captured == Some(Piece::King) {
        } else if to < 8 || to >= 56 {
            proof {
                if captured is None && position_ok(board@) {
                    lemma_empty_target(board@, 1u64 << to);
                }
            }
            let base: u16 = if captured.is_some() {
                KNIGHT_PROMOTION_CAPTURE
            } else {
                KNIGHT_PROMOTION
            };
            let mut p: u16 = 0;
            assert(moves@ =~= m0 + pawn_moves_to(board@, from, to).subrange(0, 0));
            while p < 4
                invariant
                    board.wf(),
                    from < 64,
                    to < 64,
                    base == KNIGHT_PROMOTION || base == KNIGHT_PROMOTION_CAPTURE,
                    base == KNIGHT_PROMOTION_CAPTURE <==> captured is Some,
                    captured != Some(Piece::King),
                    captured is Some ==> (1u64 << to) & board.pieces[board_index(
                        opp,
                        captured->Some_0,
                    )] != 0,
                    captured is None && position_ok(board@) ==> (1u64 << to) & (board.white_pieces
                        | board.black_pieces) == 0,
                    opp == opposite(board.state.turn_color),
                    (1u64 << from) & board.pieces[board_index(
                        board.state.turn_color,
                        Piece::Pawn,
                    )] != 0,
                    old(moves).len() <= moves.len(),
            all_generated(board@, moves@.subrange(old(moves).len() as int, moves.len() as int)),
                    p <= 4,
                    moves@ == m0 + pawn_moves_to(board@, from, to).subrange(0, p as int),
                    pawn_moves_to(board@, from, to).len() == 4,
                    captured == piece_on_spec(board@, opp, 1u64 << to),
                    to < 8 || to >= 56,
                decreases 4 - p,
            {
                let k = base + p;
                proof {
                    lemma_promo_bits(p, k);
                }
                assert(pawn_moves_to(board@, from, to)[p as int] == move_of(
                    from,
                    to,
                    k,
                    Piece::Pawn,
                    captured,
                )) by {
                    if p == 0 {
                    } else if p == 1 {
                    } else if p == 2 {
                    } else {
                    }
                }
                let ghost before_push = moves@;
                push_move(board, moves, from, to, k, Piece::Pawn, captured);
                proof {
                    lemma_generated_concat(board@, before_push.subrange(old(moves).len() as int, before_push.len() as int), seq![move_of(from, to, k, Piece::Pawn, captured)]);
                    assert(moves@.subrange(old(moves).len() as int, moves.len() as int) =~= before_push.subrange(old(moves).len() as int, before_push.len() as int) + seq![move_of(from, to, k, Piece::Pawn, captured)]);
                }
                assert(pawn_moves_to(board@, from, to).subrange(0, p as int + 1) =~= pawn_moves_to(
                    board@,
                    from,
                    to,
                ).subrange(0, p as int).push(pawn_moves_to(board@, from, to)[p as int]));
                p = p + 1;
            }
            assert(pawn_moves_to(board@, from, to).subrange(0, 4) =~= pawn_moves_to(board@, from, to));
        } else if captured.is_some() {
            let ghost before_push = moves@;
            push_move(board, moves, from, to, CAPTURE, Piece::Pawn, captured);
            proof {
                lemma_generated_concat(board@, before_push.subrange(old(moves).len() as int, before_push.len() as int), seq![move_of(from, to, CAPTURE, Piece::Pawn, captured)]);
                assert(moves@.subrange(old(moves).len() as int, moves.len() as int) =~= before_push.subrange(old(moves).len() as int, before_push.len() as int) + seq![move_of(from, to, CAPTURE, Piece::Pawn, captured)]);
            }
        } else if board.state.en_passant_square == Some(to) {
            let victim = match side {
                Color::White => (1u64 << to) >> 8,
                Color::Black => (1u64 << to) << 8,
            };
            if victim & opp_pawns != 0 {
                proof {
                    if position_ok(board@) {
                        lemma_empty_target(board@, 1u64 << to);
                    }
                }
                let ghost before_push = moves@;
                push_move(board, moves, from, to, EP_CAPTURE, Piece::Pawn, Some(Piece::Pawn));
                proof {
                    lemma_generated_concat(board@, before_push.subrange(old(moves).len() as int, before_push.len() as int), seq![move_of(from, to, EP_CAPTURE, Piece::Pawn, Some(Piece::Pawn))]);
                    assert(moves@.subrange(old(moves).len() as int, moves.len() as int) =~= before_push.subrange(old(moves).len() as int, before_push.len() as int) + seq![move_of(from, to, EP_CAPTURE, Piece::Pawn, Some(Piece::Pawn))]);
                }
            }
        } else {
            proof {
                if position_ok(board@) {
                    lemma_empty_target(board@, 1u64 << to);
                }
            }
            if from + 16 == to || to + 16 == from {
                let ghost before_push = moves@;
                push_move(board, moves, from, to, DOUBLE_PAWN_PUSH, Piece::Pawn, None);
                proof {
                    lemma_generated_concat(board@, before_push.subrange(old(moves).len() as int, before_push.len() as int), seq![move_of(from, to, DOUBLE_PAWN_PUSH, Piece::Pawn, None)]);
                    assert(moves@.subrange(old(moves).len() as int, moves.len() as int) =~= before_push.subrange(old(moves).len() as int, before_push.len() as int) + seq![move_of(from, to, DOUBLE_PAWN_PUSH, Piece::Pawn, None)]);
                }
            } else {
                let ghost before_push = moves@;
                push_move(board, moves, from, to, QUIET, Piece::Pawn, None);
                proof {
                    lemma_generated_concat(board@, before_push.subrange(old(moves).len() as int, before_push.len() as int), seq![move_of(from, to, QUIET, Piece::Pawn, None)]);
                    assert(moves@.subrange(old(moves).len() as int, moves.len() as int) =~= before_push.subrange(old(moves).len() as int, before_push.len() as int) + seq![move_of(from, to, QUIET, Piece::Pawn, None)]);
                }
            }
        }
        proof {
            let here = pawn_moves_to(board@, from, to);
            assert(moves@ =~= m0 + here);
            assert(pawn_moves_spec(board@, from, r0) == here + pawn_moves_spec(board@, from, rest));
            assert(m0 + (here + pawn_moves_spec(board@, from, rest)) =~= (m0 + here)
                + pawn_moves_spec(board@, from, rest));
        }
    }
    assert(moves@ + pawn_moves_spec(board@, from, 0) =~= moves@);
}

/// The single-bit mask of an en-passant target, or 0 for none.
pub open spec fn ep_mask(ep: Option<u64>) -> u64 {
    match ep {
        Some(sq) => if sq < 64 {
            1u64 << sq
        } else {
            0
        },
        None => 0,
    }
}

/// The squares a pawn of `side` on square `from` may move to in `b`: one
/// step forward onto an empty square, two from its starting rank when both
/// squares are empty, and the diagonals onto opponent pieces or the
/// en-passant target; never a square of its own side.
pub open spec fn pawn_targets_spec(b: BoardModel, t: AttackTables, side: Color, from: u64) -> u64 {
    let location = 1u64 << from;
    let empty = !(b.white | b.black);
    let own = if side == Color::White {
        b.white
    } else {
        b.black
    };
    let enemies = (if side == Color::White {
        b.black
    } else {
        b.white
    }) | ep_mask(b.state.en_passant_square);
    let r = if side == Color::White {
        let one = (location << 8u64) & empty;
        one | (((one & RANK_3) << 8u64) & empty) | (t.pawn_attacks@[from as int] & enemies)
    } else {
        let one = (location >> 8u64) & empty;
        one | (((one & RANK_6) >> 8u64) & empty) | (t.pawn_attacks@[64 + from] & enemies)
    };
    r & !own
}

/// The squares a pawn of `side` on square `from` may move to: one step to an
/// empty square, two from its starting rank over empty squares, and the
/// diagonals onto opponent pieces or the en-passant target; never a square
/// of its own side.
pub fn pawn_targets(board: &Chessboard, tables: &AttackTables, side: Color, from: u64) -> (r: u64)
    requires
        board.wf(),
        tables.wf(),
        from < 64,
    ensures
        r == pawn_targets_spec(board@, *tables, side, from),
        r & (if side == Color::White {
            board.white_pieces
        } else {
            board.black_pieces
        }) == 0,
{
    let location = 1u64 << from;
    let empty = !board.get_all_pieces();
    let ep = match board.state.en_passant_square {
        Some(sq) => {
            if sq < 64 {
                1u64 << sq
            } else {
                0
            }
        },
        None => 0,
    };
    let own = board.get_color_pieces(side);
    let enemies = board.get_color_pieces(side.opposite()) | ep;
    let r = match side {
        Color::White => {
            let one = (location << 8) & empty;
            let two = ((one & RANK_3) << 8) & empty;
            one | two | (tables.pawn_attacks[from as usize] & enemies)
        },
        Color::Black => {
            let one = (location >> 8) & empty;
            let two = ((one & RANK_6) >> 8) & empty;
            one | two | (tables.pawn_attacks[64 + from as usize] & enemies)
        },
    };
    proof {
        crate::bits::lemma_word_algebra(r, own, 0);
    }
    r & !own
}

/// Pushes the castling moves of the king of the side to move that its rights,
/// the empty squares between king and rook, and the unattacked squares the
/// king crosses allow.
pub fn add_castling_moves(board: &Chessboard, tables: &AttackTables, moves: &mut Vec<Move>)
    requires
        board.wf(),
        tables.wf(),
    ensures
        all_generated(board@, final(moves)@.subrange(old(moves).len() as int, final(moves).len() as int)),
        final(moves)@ == old(moves)@ + castle_moves_spec(board@, *tables),
{
    proof {
        lemma_kind_bits();
    }
    let side = board.state.turn_color;
    let king = board.get_piece(side, Piece::King);
    let opp = side.opposite();
    let ghost m0 = moves@;
    match side {
        Color::White => {
            if E1 & king != 0 {
                if board.state.can_white_king_castle && !board.any_occupied_square(F1 | G1)
                    && !board.any_attacked_squared_by_side(tables, E1 | F1 | G1, opp) {
                    assert(king == board.pieces[board_index(board.state.turn_color, Piece::King)]);
                    assert((1u64 << 4u64) & king != 0);
                    let ghost before_push = moves@;
                    push_move(board, moves, 4, 6, KING_CASTLE, Piece::King, None);
                    proof {
                        lemma_generated_concat(board@, before_push.subrange(old(moves).len() as int, before_push.len() as int), seq![move_of(4, 6, KING_CASTLE, Piece::King, None)]);
                        assert(moves@.subrange(old(moves).len() as int, moves.len() as int) =~= before_push.subrange(old(moves).len() as int, before_push.len() as int) + seq![move_of(4, 6, KING_CASTLE, Piece::King, None)]);
                    }
                }
                if board.state.can_white_queen_castle && !board.any_occupied_square(B1 | C1 | D1)
                    && !board.any_attacked_squared_by_side(tables, E1 | D1 | C1, opp) {
                    assert(king == board.pieces[board_index(board.state.turn_color, Piece::King)]);
                    assert((1u64 << 4u64) & king != 0);
                    let ghost before_push = moves@;
                    push_move(board, moves, 4, 2, QUEEN_CASTLE, Piece::King, None);
                    proof {
                        lemma_generated_concat(board@, before_push.subrange(old(moves).len() as int, before_push.len() as int), seq![move_of(4, 2, QUEEN_CASTLE, Piece::King, None)]);
                        assert(moves@.subrange(old(moves).len() as int, moves.len() as int) =~= before_push.subrange(old(moves).len() as int, before_push.len() as int) + seq![move_of(4, 2, QUEEN_CASTLE, Piece::King, None)]);
                    }
                }
            }
        },
        Color::Black => {
            if E8 & king != 0 {
                if board.state.can_black_king_castle && !board.any_occupied_square(F8 | G8)
                    && !board.any_attacked_squared_by_side(tables, E8 | F8 | G8, opp) {
                    assert(king == board.pieces[board_index(board.state.turn_color, Piece::King)]);
                    assert((1u64 << 60u64) & king != 0);
                    let ghost before_push = moves@;
                    push_move(board, moves, 60, 62, KING_CASTLE, Piece::King, None);
                    proof {
                        lemma_generated_concat(board@, before_push.subrange(old(moves).len() as int, before_push.len() as int), seq![move_of(60, 62, KING_CASTLE, Piece::King, None)]);
                        assert(moves@.subrange(old(moves).len() as int, moves.len() as int) =~= before_push.subrange(old(moves).len() as int, before_push.len() as int) + seq![move_of(60, 62, KING_CASTLE, Piece::King, None)]);
                    }
                }
                if board.state.can_black_queen_castle && !board.any_occupied_square(B8 | C8 | D8)
                    && !board.any_attacked_squared_by_side(tables, E8 | D8 | C8, opp) {
                    assert(king == board.pieces[board_index(board.state.turn_color, Piece::King)]);
                    assert((1u64 << 60u64) & king != 0);
                    let ghost before_push = moves@;
                    push_move(board, moves, 60, 58, QUEEN_CASTLE, Piece::King, None);
                    proof {
                        lemma_generated_concat(board@, before_push.subrange(old(moves).len() as int, before_push.len() as int), seq![move_of(60, 58, QUEEN_CASTLE, Piece::King, None)]);
                        assert(moves@.subrange(old(moves).len() as int, moves.len() as int) =~= before_push.subrange(old(moves).len() as int, before_push.len() as int) + seq![move_of(60, 58, QUEEN_CASTLE, Piece::King, None)]);
                    }
                }
            }
        },
    }
    assert(moves@ =~= m0 + castle_moves_spec(board@, *tables));
}

/// Pushes the pseudo-legal moves of every piece of kind `piece` of `side`,
/// the side to move.
pub fn get_all_possible_piece_moves(
    board: &Chessboard,
    tables: &AttackTables,
    piece: Piece,
    moves: &mut Vec<Move>,
)
    requires
        board.wf(),
        tables.wf(),
    ensures
        all_generated(board@, final(moves)@.subrange(old(moves).len() as int, final(moves).len() as int)),
        final(moves)@ == old(moves)@ + piece_kind_moves(board@, *tables, piece),
{
    proof {
        lemma_kind_bits();
    }
    let side = board.state.turn_color;
    let own = board.get_color_pieces(side);
    assert(own == own_squares(board@));
    let all = board.get_all_pieces();
    let bb = board.get_piece(side, piece);
    let mut rest = bb;
    proof {
        crate::bits::lemma_word_algebra(bb, 0, 0);
    }
    assert(old(moves)@ + kind_moves_spec(board@, *tables, piece, bb) =~= moves@ + kind_moves_spec(
        board@,
        *tables,
        piece,
        rest,
    ));
    while rest != 0
        invariant
            board.wf(),
            tables.wf(),
            side == board.state.turn_color,
            bb == board.pieces[board_index(side, piece)],
            own == own_squares(board@),
            rest & !bb == 0,
            old(moves).len() <= moves.len(),
            all_generated(board@, moves@.subrange(old(moves).len() as int, moves.len() as int)),
            all == board.white_pieces | board.black_pieces,
            old(moves)@ + kind_moves_spec(board@, *tables, piece, bb) == moves@ + kind_moves_spec(
                board@,
                *tables,
                piece,
                rest,
            ),
        decreases rest,
    {
        proof {
            crate::bits::lemma_clear_lowest_decreases(rest);
            lemma_lowest_in(rest, bb);
            lemma_kind_bits();
        }
        let from = rest.trailing_zeros() as u64;
        let ghost m0 = moves@;
        let ghost r0 = rest;
        rest = rest & (rest - 1);
        let sq = from as usize;
        match piece {
            Piece::Pawn => {
                let targets = pawn_targets(board, tables, side, from);
                let ghost before_call = moves@;
                add_all_possible_moves_pawn(board, from, targets, moves);
                proof {
                    let app = moves@.subrange(before_call.len() as int, moves.len() as int);
                    assert(moves@ =~= before_call + app);
                    lemma_generated_concat(board@, before_call.subrange(old(moves).len() as int, before_call.len() as int), app);
                    assert(moves@.subrange(old(moves).len() as int, moves.len() as int) =~= before_call.subrange(old(moves).len() as int, before_call.len() as int) + app);
                }
            },
            Piece::Knight => {
                let ghost before_call = moves@;
                add_all_possible_moves(board, from, tables.knight_attacks[sq] & !own, piece, moves);
                proof {
                    let app = moves@.subrange(before_call.len() as int, moves.len() as int);
                    assert(moves@ =~= before_call + app);
                    lemma_generated_concat(board@, before_call.subrange(old(moves).len() as int, before_call.len() as int), app);
                    assert(moves@.subrange(old(moves).len() as int, moves.len() as int) =~= before_call.subrange(old(moves).len() as int, before_call.len() as int) + app);
                }
            },
            Piece::Bishop => {
                let targets = tables.bishop_lookup(from, all) & !own;
                let ghost before_call = moves@;
                add_all_possible_moves(board, from, targets, piece, moves);
                proof {
                    let app = moves@.subrange(before_call.len() as int, moves.len() as int);
                    assert(moves@ =~= before_call + app);
                    lemma_generated_concat(board@, before_call.subrange(old(moves).len() as int, before_call.len() as int), app);
                    assert(moves@.subrange(old(moves).len() as int, moves.len() as int) =~= before_call.subrange(old(moves).len() as int, before_call.len() as int) + app);
                }
            },
            Piece::Rook => {
                let targets = tables.rook_lookup(from, all) & !own;
                let ghost before_call = moves@;
                add_all_possible_moves(board, from, targets, piece, moves);
                proof {
                    let app = moves@.subrange(before_call.len() as int, moves.len() as int);
                    assert(moves@ =~= before_call + app);
                    lemma_generated_concat(board@, before_call.subrange(old(moves).len() as int, before_call.len() as int), app);
                    assert(moves@.subrange(old(moves).len() as int, moves.len() as int) =~= before_call.subrange(old(moves).len() as int, before_call.len() as int) + app);
                }
            },
            Piece::Queen => {
                let targets = (tables.rook_lookup(from, all) | tables.bishop_lookup(from, all))
                    & !own;
                let ghost before_call = moves@;
                add_all_possible_moves(board, from, targets, piece, moves);
                proof {
                    let app = moves@.subrange(before_call.len() as int, moves.len() as int);
                    assert(moves@ =~= before_call + app);
                    lemma_generated_concat(board@, before_call.subrange(old(moves).len() as int, before_call.len() as int), app);
                    assert(moves@.subrange(old(moves).len() as int, moves.len() as int) =~= before_call.subrange(old(moves).len() as int, before_call.len() as int) + app);
                }
            },
            Piece::King => {
                let ghost before_call = moves@;
                add_all_possible_moves(board, from, tables.king_attacks[sq] & !own, piece, moves);
                proof {
                    let app = moves@.subrange(before_call.len() as int, moves.len() as int);
                    assert(moves@ =~= before_call + app);
                    lemma_generated_concat(board@, before_call.subrange(old(moves).len() as int, before_call.len() as int), app);
                    assert(moves@.subrange(old(moves).len() as int, moves.len() as int) =~= before_call.subrange(old(moves).len() as int, before_call.len() as int) + app);
                }
            },
        }
        proof {
            let here = moves@.subrange(m0.len() as int, moves@.len() as int);
            assert(moves@ =~= m0 + here);
            assert(kind_moves_spec(board@, *tables, piece, r0) == here + kind_moves_spec(
                board@,
                *tables,
                piece,
                rest,
            ));
            assert(m0 + (here + kind_moves_spec(board@, *tables, piece, rest)) =~= (m0 + here)
                + kind_moves_spec(board@, *tables, piece, rest));
        }
    }
    assert(moves@ + kind_moves_spec(board@, *tables, piece, 0) =~= moves@);
    let ghost m1 = moves@;
    if piece == Piece::King && board.should_check_castling() {
        let ghost before_call = moves@;
        add_castling_moves(board, tables, moves);
        proof {
            let app = moves@.subrange(before_call.len() as int, moves.len() as int);
            assert(moves@ =~= before_call + app);
            lemma_generated_concat(board@, before_call.subrange(old(moves).len() as int, before_call.len() as int), app);
            assert(moves@.subrange(old(moves).len() as int, moves.len() as int) =~= before_call.subrange(old(moves).len() as int, before_call.len() as int) + app);
        }
    }
    assert(moves@ =~= old(moves)@ + piece_kind_moves(board@, *tables, piece));
}

/// Every pseudo-legal move of the side to move, in the order of
/// `pseudo_legal_moves`. A move onto the opponent king is left out: it can
/// only arise when the side not to move is already in check, which no legal
/// play reaches.
pub fn generate_moves(board: &Chessboard, tables: &AttackTables) -> (r: Vec<Move>)
    requires
        board.wf(),
        tables.wf(),
    ensures
        all_generated(board@, r@),
        r@ == pseudo_legal_moves(board@, *tables),
{
    let mut moves: Vec<Move> = Vec::with_capacity(256);
    get_all_possible_piece_moves(board, tables, Piece::Pawn, &mut moves);
    let ghost v1 = moves@;
    assert(v1.subrange(0, v1.len() as int) =~= v1);
    get_all_possible_piece_moves(board, tables, Piece::Rook, &mut moves);
    let ghost v2 = moves@;
    proof {
        let app = v2.subrange(v1.len() as int, v2.len() as int);
        assert(v2 =~= v1 + app);
        lemma_generated_concat(board@, v1, app);
    }
    get_all_possible_piece_moves(board, tables, Piece::Knight, &mut moves);
    let ghost v3 = moves@;
    proof {
        let app = v3.subrange(v2.len() as int, v3.len() as int);
        assert(v3 =~= v2 + app);
        lemma_generated_concat(board@, v2, app);
    }
    get_all_possible_piece_moves(board, tables, Piece::Bishop, &mut moves);
    let ghost v4 = moves@;
    proof {
        let app = v4.subrange(v3.len() as int, v4.len() as int);
        assert(v4 =~= v3 + app);
        lemma_generated_concat(board@, v3, app);
    }
    get_all_possible_piece_moves(board, tables, Piece::Queen, &mut moves);
    let ghost v5 = moves@;
    proof {
        let app = v5.subrange(v4.len() as int, v5.len() as int);
        assert(v5 =~= v4 + app);
        lemma_generated_concat(board@, v4, app);
    }
    get_all_possible_piece_moves(board, tables, Piece::King, &mut moves);
    let ghost v6 = moves@;
    proof {
        let app = v6.subrange(v5.len() as int, v6.len() as int);
        assert(v6 =~= v5 + app);
        lemma_generated_concat(board@, v5, app);
    }
    assert(moves@ =~= pseudo_legal_moves(board@, *tables));
    moves
}

/// The pseudo-legal moves after which the mover's king is not attacked, in
/// generation order.
pub fn generate_legal_moves(board: &mut Chessboard, tables: &AttackTables) -> (r: Vec<Move>)
    requires
        old(board).wf(),
        old(board).ply_index < MAX_PLY,
        tables.wf(),
    ensures
        final(board)@ == old(board)@,
        all_generated(old(board)@, r@),
        forall|i: int| 0 <= i < r.len() ==> #[trigger] is_legal(old(board)@, *tables, r[i]),
        r@ == legal_moves(old(board)@, *tables),
{
    let ghost b0 = board@;
    let all = generate_moves(board, tables);
    let side = board.state.turn_color;
    let mut legal: Vec<Move> = Vec::new();
    let mut i: usize = 0;
    assert(legal@ =~= safe_moves(b0, *tables, all@.subrange(0, 0)));
    while i < all.len()
        invariant
            board.wf(),
            tables.wf(),
            board@ == b0,
            board.ply_index < MAX_PLY,
            side == b0.state.turn_color,
            all_generated(b0, all@),
            all_generated(b0, legal@),
            forall|j: int| 0 <= j < legal.len() ==> #[trigger] is_legal(b0, *tables, legal[j]),
            all@ == pseudo_legal_moves(b0, *tables),
            i <= all.len(),
            legal@ == safe_moves(b0, *tables, all@.subrange(0, i as int)),
        decreases all.len() - i,
    {
        let mv = all[i];
        assert(all@.subrange(0, i as int + 1).drop_last() =~= all@.subrange(0, i as int));
        board.make(tables, &mv);
        let illegal = board.is_in_check(tables, side);
        assert(illegal == in_check_spec(crate::board::made(b0, tables.zobrist, mv), *tables, side));
        board.unmake(&mv);
        proof {
            lemma_make_unmake(b0, tables.zobrist, mv);
        }
        if !illegal {
            legal.push(mv);
            assert forall|j: int| 0 <= j < legal.len() implies #[trigger] generated_from(
                b0,
                legal@[j],
            ) by {
                if j < legal.len() - 1 {
                    assert(generated_from(b0, legal@[j]));
                } else {
                    assert(generated_from(b0, all@[i as int]));
                }
            }
            assert forall|j: int| 0 <= j < legal.len() implies #[trigger] is_legal(
                b0,
                *tables,
                legal[j],
            ) by {
                if j < legal.len() - 1 {
                    assert(is_legal(b0, *tables, legal@[j]));
                } else {
                    assert(generated_from(b0, all@[i as int]));
                }
            }
        }
        i = i + 1;
    }
    assert(all@.subrange(0, i as int) =~= all@);
    legal
}

impl Chessboard {
    /// Counts the leaves of the legal move tree of depth `depth`; the
    /// position is the same afterwards.
    pub fn perft(&mut self, tables: &AttackTables, depth: u8) -> (r: u64)
        requires
            old(self).wf(),
            tables.wf(),
            old(self).ply_index + depth <= MAX_PLY,
        ensures
            final(self)@ == old(self)@,
            final(self).wf(),
            r == perft_spec(old(self)@, *tables, depth as nat),
        decreases depth,
    {
        if depth == 0 {
            return 1;
        }
        let ghost b0 = self@;
        let moves = generate_moves(self, tables);
        let side = self.state.turn_color;
        let mut nodes: u64 = 0;
        let mut i: usize = 0;
        assert(moves@.subrange(0, 0).len() == 0);
        while i < moves.len()
            invariant
                self.wf(),
                tables.wf(),
                self@ == b0,
                self.ply_index + depth <= MAX_PLY,
                depth > 0,
                moves@ == pseudo_legal_moves(b0, *tables),
                side == b0.state.turn_color,
                i <= moves.len(),
                nodes == perft_list(b0, *tables, moves@.subrange(0, i as int), depth as nat),
            decreases moves.len() - i,
        {
            let mv = moves[i];
            let ghost prefix = moves@.subrange(0, i as int + 1);
            assert(prefix.drop_last() =~= moves@.subrange(0, i as int));
            assert(prefix.last() == mv);
            self.make(tables, &mv);
            if !self.is_in_check(tables, side) {
                let sub = self.perft(tables, depth - 1);
                nodes = nodes.saturating_add(sub);
            } else {
                assert(nodes == sat_add(nodes, 0));
            }
            self.unmake(&mv);
            proof {
                lemma_make_unmake(b0, tables.zobrist, mv);
            }
            i = i + 1;
        }
        assert(moves@.subrange(0, i as int) =~= moves@);
        nodes
    }
}

} // verus!
