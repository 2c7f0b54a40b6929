//! The bitboard invariants: pairwise disjoint piece bitboards, aggregates
//! that are the unions of their side's bitboards, one king per side; and the
//! proof that making a move that fits the position keeps them.

use vstd::prelude::*;
use crate::board::{
    apply_delta, made, move_delta, no_toggle, toggle_model, toggle_of, ep_victim,
    BoardModel, MoveDelta, Toggle, A1, A8, B1, B8, C1, C8, D1, D8, E1, E8, F1, F8, G1, G8, H1, H8,
};
use crate::fen::{one_bit, pieces_consistent, side_union};
use crate::moves::{Move, word_kind, EP_CAPTURE, KING_CASTLE, QUEEN_CASTLE};
use crate::makemove::{lemma_delta_indices, lemma_toggle_closed, toggle_at};
use crate::movegen::generated_from;
use crate::tables::Zobrist;
use crate::types::{Color, Piece, board_index, opposite};

verus! {

/// Disjoint bitboards, aggregates equal to the unions of their sides, and
/// disjoint aggregates; the kings are not counted.
pub open spec fn bitboards_consistent(b: BoardModel) -> bool {
    &&& b.pieces.len() == 12
    &&& forall|i: int, j: int|
        0 <= i < 12 && 0 <= j < 12 && i != j ==> #[trigger] (b.pieces[i] & b.pieces[j]) == 0
    &&& b.white == side_union(b.pieces, 0, 6)
    &&& b.black == side_union(b.pieces, 6, 6)
    &&& b.white & b.black == 0
}

/// The invariants every position reached from a parsed one keeps.
pub open spec fn position_ok(b: BoardModel) -> bool {
    pieces_consistent(b) && crate::board::castling_consistent(b)
}

/// A move with these parts fits position `b`, as a move produced for it by
/// the generator does: its piece stands on the source square; a capture
/// names the piece on its target (never a king), any other move goes to an
/// empty square; an en-passant capture finds the opponent pawn behind the
/// target; a castle finds king and rook at home and the squares between them
/// empty.
pub open spec fn parts_fit(
    b: BoardModel,
    from: u64,
    to: u64,
    k: u16,
    piece: Piece,
    captured: Option<Piece>,
) -> bool {
    let side = b.state.turn_color;
    let opp = opposite(side);
    let occ = b.white | b.black;
    let white = side == Color::White;
    let mover = if k & 8 != 0 {
        Piece::Pawn
    } else {
        piece
    };
    &&& captured != Some(Piece::King)
    &&& if k == KING_CASTLE {
        &&& from == (if white { E1 } else { E8 })
        &&& to == (if white { G1 } else { G8 })
        &&& from & b.pieces[board_index(side, Piece::King)] != 0
        &&& (if white { H1 } else { H8 }) & b.pieces[board_index(side, Piece::Rook)] != 0
        &&& (if white { F1 | G1 } else { F8 | G8 }) & occ == 0
    } else if k == QUEEN_CASTLE {
        &&& from == (if white { E1 } else { E8 })
        &&& to == (if white { C1 } else { C8 })
        &&& from & b.pieces[board_index(side, Piece::King)] != 0
        &&& (if white { A1 } else { A8 }) & b.pieces[board_index(side, Piece::Rook)] != 0
        &&& (if white { B1 | C1 | D1 } else { B8 | C8 | D8 }) & occ == 0
    } else if k == EP_CAPTURE {
        &&& from & b.pieces[board_index(side, Piece::Pawn)] != 0
        &&& to & occ == 0
        &&& ep_victim(side, to) & b.pieces[board_index(opp, Piece::Pawn)] != 0
    } else {
        &&& from & b.pieces[board_index(side, mover)] != 0
        &&& if k & 4 != 0 {
            captured is Some && to & b.pieces[board_index(opp, captured->Some_0)] != 0
        } else {
            to & occ == 0
        }
    }
}

/// `mv` fits position `b` (see `parts_fit`), and its cached masks agree
/// with its word.
pub open spec fn move_fits(b: BoardModel, mv: Move) -> bool {
    &&& mv.wf()
    &&& parts_fit(b, mv.from, mv.to, word_kind(mv.word), mv.piece_type, mv.captured_piece)
}

proof fn lemma_union_bits(u: u64, x: u64, y: u64, s: u64)
    by (bit_vector)
    ensures
        u & s == 0 && x & s == 0 ==> (u | x) & s == 0,
        0u64 & s == 0,
        x & !(u | x) == 0,
        y & !u == 0 ==> y & !(u | x) == 0,
        u & s == 0 ==> (u | (x ^ s)) == ((u | x) ^ s),
        x & s == 0 ==> ((u ^ s) | x) == ((u | x) ^ s),
{
}

proof fn lemma_toggle_bits(s: u64, x: u64, y: u64, w: u64, k: u64)
    by (bit_vector)
    ensures
        one_bit(s) && s & x != 0 ==> s & !x == 0,
        s & !x == 0 && x & y == 0 ==> y & s == 0,
        s & (w | k) == 0 && (y & !w == 0 || y & !k == 0) ==> y & s == 0,
        x & y == 0 && y & s == 0 ==> (x ^ s) & y == 0,
        x & y == 0 && x & s == 0 ==> x & (y ^ s) == 0,
        s & !x == 0 && x & !w == 0 && w & k == 0 ==> (w ^ s) & k == 0,
        s & (w | k) == 0 && w & k == 0 ==> (w ^ s) & k == 0,
        s & !x == 0 && x & !k == 0 && w & k == 0 ==> w & (k ^ s) == 0,
        s & (w | k) == 0 && w & k == 0 ==> w & (k ^ s) == 0,
        s & !x == 0 && x & !w == 0 ==> s & !w == 0 && s & !(w | k) == 0,
        s & !x == 0 && x & !k == 0 ==> s & !k == 0 && s & !(w | k) == 0,
{
}

proof fn lemma_slide_bits(f: u64, t: u64, w: u64, k: u64)
    by (bit_vector)
    ensures
        t & (w | k) == 0 && f & !(w | k) == 0 ==> t & ((w ^ f) | k) == 0 && t & (w | (k ^ f))
            == 0,
        f & !w == 0 && w & k == 0 && t & (w | k) == 0 ==> (((w ^ f) ^ t) | k) == (((w | k) ^ f)
            ^ t),
        f & !k == 0 && w & k == 0 && t & (w | k) == 0 ==> (w | ((k ^ f) ^ t)) == (((w | k) ^ f)
            ^ t),
        f & !w == 0 && w & k == 0 ==> ((w ^ f) | k) == ((w | k) ^ f) && f & ((w ^ f) | k) == 0,
        f & !k == 0 && w & k == 0 ==> (w | (k ^ f)) == ((w | k) ^ f) && f & (w | (k ^ f)) == 0,
{
}

proof fn lemma_shift8_bits(to: u64)
    by (bit_vector)
    ensures
        one_bit(to) && (to >> 8u64) != 0 ==> one_bit(to >> 8u64),
        one_bit(to) && (to << 8u64) != 0 ==> one_bit(to << 8u64),
{
}

proof fn lemma_castle_occ(o: u64)
    by (bit_vector)
    ensures
        (F1 | G1) & o == 0 ==> G1 & o == 0 && F1 & o == 0 && F1 & ((o ^ E1) ^ G1) == 0,
        (F8 | G8) & o == 0 ==> G8 & o == 0 && F8 & o == 0 && F8 & ((o ^ E8) ^ G8) == 0,
        (B1 | C1 | D1) & o == 0 ==> C1 & o == 0 && D1 & o == 0 && D1 & ((o ^ E1) ^ C1) == 0,
        (B8 | C8 | D8) & o == 0 ==> C8 & o == 0 && D8 & o == 0 && D8 & ((o ^ E8) ^ C8) == 0,
{
}

proof fn lemma_target_bits(t: u64, f: u64, o: u64, x: u64, y: u64)
    by (bit_vector)
    ensures
        t & o == 0 && f & !o == 0 ==> t & (o ^ f) == 0,
        one_bit(f) && one_bit(t) && f & x != 0 && t & y != 0 && x & y == 0 ==> f & t == 0,
        t & o == 0 && f & t == 0 ==> t & (o ^ f) == 0,
{
}

proof fn lemma_king_bits(x: u64, f: u64, t: u64)
    by (bit_vector)
    ensures
        one_bit(x) && one_bit(f) && one_bit(t) && f & x != 0 ==> one_bit(
            ((x ^ (f ^ t)) ^ 0u64) ^ 0u64,
        ),
        one_bit(x) ==> one_bit(((x ^ 0u64) ^ 0u64) ^ 0u64),
{
}

proof fn lemma_union_out(p: Seq<u64>, start: int, n: nat, i: int, v: u64)
    requires
        0 <= start,
        start + n <= p.len(),
        0 <= i < p.len(),
        !(start <= i < start + n),
    ensures
        side_union(p.update(i, v), start, n) == side_union(p, start, n),
    decreases n,
{
    if n > 0 {
        lemma_union_out(p, start, (n - 1) as nat, i, v);
    }
}

/// A mask disjoint from each of a range of bitboards is disjoint from
/// their union.
pub proof fn lemma_union_disjoint(p: Seq<u64>, start: int, n: nat, s: u64)
    requires
        0 <= start,
        start + n <= p.len(),
        forall|j: int| start <= j < start + n ==> #[trigger] (p[j] & s) == 0,
    ensures
        side_union(p, start, n) & s == 0,
    decreases n,
{
    if n > 0 {
        lemma_union_disjoint(p, start, (n - 1) as nat, s);
        let u = side_union(p, start, (n - 1) as nat);
        let x = p[start + n - 1];
        lemma_union_bits(u, x, 0, s);
    } else {
        lemma_union_bits(0, 0, 0, s);
    }
}

/// Each bitboard of a range lies in their union.
pub proof fn lemma_union_contains(p: Seq<u64>, start: int, n: nat, j: int)
    requires
        0 <= start,
        start + n <= p.len(),
        start <= j < start + n,
    ensures
        p[j] & !side_union(p, start, n) == 0,
    decreases n,
{
    let u = side_union(p, start, (n - 1) as nat);
    let x = p[start + n - 1];
    if j == start + n - 1 {
        lemma_union_bits(u, x, 0, 0);
    } else {
        lemma_union_contains(p, start, (n - 1) as nat, j);
        let y = p[j];
        lemma_union_bits(u, x, y, 0);
    }
}

proof fn lemma_union_in(p: Seq<u64>, start: int, n: nat, i: int, s: u64)
    requires
        0 <= start,
        start + n <= p.len(),
        start <= i < start + n,
        forall|j: int| start <= j < start + n && j != i ==> #[trigger] (p[j] & s) == 0,
    ensures
        side_union(p.update(i, p[i] ^ s), start, n) == side_union(p, start, n) ^ s,
    decreases n,
{
    let q = p.update(i, p[i] ^ s);
    let last = start + n - 1;
    let u = side_union(p, start, (n - 1) as nat);
    if last == i {
        lemma_union_out(p, start, (n - 1) as nat, i, p[i] ^ s);
        lemma_union_disjoint(p, start, (n - 1) as nat, s);
        let x = p[i];
        lemma_union_bits(u, x, 0, s);
    } else {
        lemma_union_in(p, start, (n - 1) as nat, i, s);
        let x = p[last];
        assert(x & s == 0);
        lemma_union_bits(u, x, 0, s);
    }
}

/// Toggling one square on one bitboard keeps the bitboards consistent when it
/// takes a piece off its square, or puts one on an empty square.
pub proof fn lemma_toggle_square(b: BoardModel, i: int, s: u64)
    requires
        bitboards_consistent(b),
        0 <= i < 12,
        one_bit(s),
        s & b.pieces[i] != 0 || s & (b.white | b.black) == 0,
    ensures
        bitboards_consistent(toggle_model(b, Toggle { index: i as usize, mask: s })),
{
    let p = b.pieces;
    let t = Toggle { index: i as usize, mask: s };
    let b2 = toggle_model(b, t);
    let removing = s & p[i] != 0;
    if removing {
        let x = p[i];
        lemma_toggle_bits(s, x, 0, 0, 0);
    }
    assert forall|j: int| 0 <= j < 12 && j != i implies #[trigger] (p[j] & s) == 0 by {
        let y = p[j];
        let x = p[i];
        if removing {
            assert(x & y == 0);
            lemma_toggle_bits(s, x, y, 0, 0);
        } else {
            if j < 6 {
                lemma_union_contains(p, 0, 6, j);
            } else {
                lemma_union_contains(p, 6, 6, j);
            }
            let w = b.white;
            let k = b.black;
            lemma_toggle_bits(s, 0, y, w, k);
        }
    }
    assert forall|a: int, c: int|
        0 <= a < 12 && 0 <= c < 12 && a != c implies #[trigger] (b2.pieces[a] & b2.pieces[c])
        == 0 by {
        let x = p[a];
        let y = p[c];
        assert(x & y == 0);
        if a == i {
            assert(y & s == 0);
            lemma_toggle_bits(s, x, y, 0, 0);
        } else if c == i {
            assert(x & s == 0);
            lemma_toggle_bits(s, x, y, 0, 0);
        }
    }
    let w = b.white;
    let k = b.black;
    if i < 6 {
        lemma_union_in(p, 0, 6, i, s);
        lemma_union_out(p, 6, 6, i, p[i] ^ s);
        if removing {
            lemma_union_contains(p, 0, 6, i);
            let x = p[i];
            lemma_toggle_bits(s, x, 0, w, k);
        } else {
            lemma_toggle_bits(s, 0, 0, w, k);
        }
    } else {
        lemma_union_in(p, 6, 6, i, s);
        lemma_union_out(p, 0, 6, i, p[i] ^ s);
        if removing {
            lemma_union_contains(p, 6, 6, i);
            let x = p[i];
            lemma_toggle_bits(s, x, 0, w, k);
        } else {
            lemma_toggle_bits(s, 0, 0, w, k);
        }
    }
}


proof fn lemma_toggle_split(b: BoardModel, i: usize, a: u64, c: u64)
    requires
        b.pieces.len() == 12,
        i < 12,
    ensures
        toggle_model(b, Toggle { index: i, mask: a ^ c }) == toggle_model(
            toggle_model(b, Toggle { index: i, mask: a }),
            Toggle { index: i, mask: c },
        ),
{
    let l = toggle_model(b, Toggle { index: i, mask: a ^ c });
    let r = toggle_model(toggle_model(b, Toggle { index: i, mask: a }), Toggle { index: i, mask: c });
    let x = b.pieces[i as int];
    crate::bits::lemma_word_algebra(x, a, c);
    assert(l.pieces =~= r.pieces);
    let w = b.white;
    let k = b.black;
    crate::bits::lemma_word_algebra(w, a, c);
    crate::bits::lemma_word_algebra(k, a, c);
}

proof fn lemma_toggle_commute(b: BoardModel, t1: Toggle, t2: Toggle)
    requires
        b.pieces.len() == 12,
        t1.index < 12,
        t2.index < 12,
    ensures
        toggle_model(toggle_model(b, t1), t2) == toggle_model(toggle_model(b, t2), t1),
{
    let l = toggle_model(toggle_model(b, t1), t2);
    let r = toggle_model(toggle_model(b, t2), t1);
    let (m1, m2) = (t1.mask, t2.mask);
    assert forall|x: u64| #[trigger] ((x ^ m1) ^ m2) == ((x ^ m2) ^ m1) by {
        crate::bits::lemma_word_algebra(x, m1, m2);
    }
    assert(l.pieces =~= r.pieces);
}

proof fn lemma_toggle_zero(b: BoardModel, t: Toggle)
    requires
        b.pieces.len() == 12,
        t.index < 12,
        t.mask == 0,
    ensures
        toggle_model(b, t) == b,
{
    assert forall|x: u64| #[trigger] (x ^ 0u64) == x by {
        crate::bits::lemma_word_algebra(x, 0, 0);
    }
    assert(toggle_model(b, t).pieces =~= b.pieces);
}

/// A square on a bitboard lies in its side's aggregate.
proof fn lemma_square_in_side(b: BoardModel, i: int, s: u64)
    requires
        bitboards_consistent(b),
        0 <= i < 12,
        one_bit(s),
        s & b.pieces[i] != 0,
    ensures
        s & !(if i < 6 { b.white } else { b.black }) == 0,
        s & !(b.white | b.black) == 0,
{
    let x = b.pieces[i];
    lemma_toggle_bits(s, x, 0, 0, 0);
    let w = b.white;
    let k = b.black;
    if i < 6 {
        lemma_union_contains(b.pieces, 0, 6, i);
        lemma_toggle_bits(s, x, 0, w, k);
    } else {
        lemma_union_contains(b.pieces, 6, 6, i);
        lemma_toggle_bits(s, x, 0, w, k);
    }
}

/// Moving the piece of bitboard `i` from square `f` to the empty square `t`
/// keeps the bitboards consistent.
proof fn lemma_slide(b: BoardModel, i: usize, f: u64, t: u64)
    requires
        bitboards_consistent(b),
        i < 12,
        one_bit(f),
        one_bit(t),
        f & b.pieces[i as int] != 0,
        t & (b.white | b.black) == 0,
    ensures
        bitboards_consistent(toggle_model(b, Toggle { index: i, mask: f ^ t })),
        toggle_model(b, Toggle { index: i, mask: f ^ t }).white | toggle_model(
            b,
            Toggle { index: i, mask: f ^ t },
        ).black == ((b.white | b.black) ^ f) ^ t,
{
    lemma_toggle_split(b, i, f, t);
    lemma_toggle_square(b, i as int, f);
    lemma_square_in_side(b, i as int, f);
    let b1 = toggle_model(b, Toggle { index: i, mask: f });
    let w = b.white;
    let k = b.black;
    lemma_slide_bits(f, t, w, k);
    lemma_toggle_square(b1, i as int, t);
    if i < 6 {
        lemma_slide_bits(f, t, w, k);
    } else {
        lemma_slide_bits(f, t, w, k);
    }
}

/// Taking the piece of bitboard `i` off square `s` keeps the bitboards
/// consistent and frees the square.
proof fn lemma_remove(b: BoardModel, i: usize, s: u64)
    requires
        bitboards_consistent(b),
        i < 12,
        one_bit(s),
        s & b.pieces[i as int] != 0,
    ensures
        bitboards_consistent(toggle_model(b, Toggle { index: i, mask: s })),
        toggle_model(b, Toggle { index: i, mask: s }).white | toggle_model(
            b,
            Toggle { index: i, mask: s },
        ).black == (b.white | b.black) ^ s,
        s & (toggle_model(b, Toggle { index: i, mask: s }).white | toggle_model(
            b,
            Toggle { index: i, mask: s },
        ).black) == 0,
{
    lemma_toggle_square(b, i as int, s);
    lemma_square_in_side(b, i as int, s);
    let w = b.white;
    let k = b.black;
    if i < 6 {
        lemma_slide_bits(s, 0, w, k);
    } else {
        lemma_slide_bits(s, 0, w, k);
    }
}


proof fn lemma_shift_one_bit(x: u64)
    by (bit_vector)
    requires
        x < 64,
    ensures
        one_bit(1u64 << x),
{
}

proof fn lemma_victim_one_bit(side: Color, to: u64)
    requires
        one_bit(to),
        ep_victim(side, to) != 0,
    ensures
        one_bit(ep_victim(side, to)),
{
    lemma_shift8_bits(to);
}

proof fn lemma_corner_bits()
    by (bit_vector)
    ensures
        one_bit(A1) && one_bit(C1) && one_bit(D1) && one_bit(F1) && one_bit(G1) && one_bit(H1),
        one_bit(A8) && one_bit(C8) && one_bit(D8) && one_bit(F8) && one_bit(G8) && one_bit(H8),
        H1 | F1 == H1 ^ F1 && A1 | D1 == A1 ^ D1 && H8 | F8 == H8 ^ F8 && A8 | D8 == A8 ^ D8,
{
}

proof fn lemma_castle_keeps(b: BoardModel, mv: Move, d: MoveDelta, rf: u64, rt: u64)
    requires
        bitboards_consistent(b),
        one_bit(mv.from),
        one_bit(mv.to),
        one_bit(rf),
        one_bit(rt),
        d.first == toggle_of(b.state.turn_color, Piece::King, mv.from ^ mv.to),
        d.second == toggle_of(b.state.turn_color, Piece::Rook, rf ^ rt),
        d.third == no_toggle(),
        mv.from & b.pieces[board_index(b.state.turn_color, Piece::King)] != 0,
        rf & b.pieces[board_index(b.state.turn_color, Piece::Rook)] != 0,
        mv.to & (b.white | b.black) == 0,
        rt & (((b.white | b.black) ^ mv.from) ^ mv.to) == 0,
    ensures
        bitboards_consistent(apply_delta(b, d)),
{
    let b1 = toggle_model(b, d.first);
    lemma_slide(b, d.first.index, mv.from, mv.to);
    lemma_slide(b1, d.second.index, rf, rt);
    lemma_toggle_zero(toggle_model(b1, d.second), d.third);
}

/// Making a move that fits the position keeps the bitboards consistent.
pub proof fn lemma_delta_keeps_bitboards(b: BoardModel, mv: Move)
    requires
        bitboards_consistent(b),
        move_fits(b, mv),
    ensures
        bitboards_consistent(
            apply_delta(b, move_delta(mv, b.state.turn_color, mv.captured_piece)),
        ),
{
    let side = b.state.turn_color;
    let opp = opposite(side);
    let d = move_delta(mv, side, mv.captured_piece);
    let k = word_kind(mv.word);
    let white = side == Color::White;
    let occ = b.white | b.black;
    let w = mv.word;
    crate::moves::lemma_word_bits(w);
    lemma_shift_one_bit(crate::moves::word_from(mv.word) as u64);
    lemma_shift_one_bit(crate::moves::word_to(mv.word) as u64);
    lemma_corner_bits();
    if k == KING_CASTLE {
        if white {
            assert((F1 | G1) & occ == 0);
            lemma_castle_occ(occ);
            assert(F1 & ((occ ^ E1) ^ G1) == 0);
            lemma_castle_keeps(b, mv, d, H1, F1);
        } else {
            assert((F8 | G8) & occ == 0);
            lemma_castle_occ(occ);
            assert(F8 & ((occ ^ E8) ^ G8) == 0);
            lemma_castle_keeps(b, mv, d, H8, F8);
        }
    } else if k == QUEEN_CASTLE {
        if white {
            assert((B1 | C1 | D1) & occ == 0);
            lemma_castle_occ(occ);
            assert(D1 & ((occ ^ E1) ^ C1) == 0);
            lemma_castle_keeps(b, mv, d, A1, D1);
        } else {
            assert((B8 | C8 | D8) & occ == 0);
            lemma_castle_occ(occ);
            assert(D8 & ((occ ^ E8) ^ C8) == 0);
            lemma_castle_keeps(b, mv, d, A8, D8);
        }
    } else if k == EP_CAPTURE {
        let v = ep_victim(side, mv.to);
        let y = b.pieces[board_index(opp, Piece::Pawn)];
        crate::bits::lemma_word_algebra(v, y, 0);
        lemma_victim_one_bit(side, mv.to);
        lemma_toggle_commute(b, d.first, d.second);
        let ba = toggle_model(b, d.second);
        lemma_remove(b, d.second.index, v);
        lemma_square_in_side(b, d.second.index as int, v);
        let t = mv.to;
        lemma_target_bits(t, v, occ, 0, 0);
        lemma_slide(ba, d.first.index, mv.from, mv.to);
        lemma_toggle_zero(toggle_model(ba, d.first), d.third);
    } else if k & 8 != 0 {
        if k & 4 != 0 {
            let c = mv.captured_piece->Some_0;
            let b1 = toggle_model(b, d.first);
            lemma_toggle_commute(b1, d.second, d.third);
            lemma_toggle_commute(b, d.first, d.third);
            let ba = toggle_model(b, d.third);
            lemma_remove(b, d.third.index, mv.to);
            let bb = toggle_model(ba, d.first);
            lemma_remove(ba, d.first.index, mv.from);
            let f = mv.from;
            let t = mv.to;
            let x = b.pieces[board_index(side, Piece::Pawn)];
            let y = b.pieces[board_index(opp, c)];
            assert(x & y == 0);
            lemma_target_bits(t, f, 0, x, y);
            let oa = ba.white | ba.black;
            lemma_target_bits(t, f, oa, 0, 0);
            lemma_toggle_square(bb, d.second.index as int, mv.to);
        } else {
            lemma_remove(b, d.first.index, mv.from);
            lemma_square_in_side(b, d.first.index as int, mv.from);
            let f = mv.from;
            let t = mv.to;
            lemma_target_bits(t, f, occ, 0, 0);
            let b1 = toggle_model(b, d.first);
            lemma_toggle_square(b1, d.second.index as int, mv.to);
            lemma_toggle_zero(toggle_model(b1, d.second), d.third);
        }
    } else {
        if k & 4 != 0 {
            lemma_toggle_commute(b, d.first, d.second);
            let ba = toggle_model(b, d.second);
            lemma_remove(b, d.second.index, mv.to);
            lemma_slide(ba, d.first.index, mv.from, mv.to);
            lemma_toggle_zero(toggle_model(ba, d.first), d.third);
        } else {
            lemma_toggle_zero(b, d.second);
            lemma_slide(b, d.first.index, mv.from, mv.to);
            lemma_toggle_zero(toggle_model(b, d.first), d.third);
        }
    }
}


/// Making a move that fits the position leaves each side exactly one king.
pub proof fn lemma_delta_keeps_kings(b: BoardModel, mv: Move)
    requires
        pieces_consistent(b),
        move_fits(b, mv),
    ensures
        one_bit(apply_delta(b, move_delta(mv, b.state.turn_color, mv.captured_piece)).pieces[5]),
        one_bit(apply_delta(b, move_delta(mv, b.state.turn_color, mv.captured_piece)).pieces[11]),
{
    let side = b.state.turn_color;
    let d = move_delta(mv, side, mv.captured_piece);
    lemma_delta_indices(mv, side, mv.captured_piece);
    let b1 = toggle_model(b, d.first);
    let b2 = toggle_model(b1, d.second);
    lemma_toggle_closed(b, d.first);
    lemma_toggle_closed(b1, d.second);
    lemma_toggle_closed(b2, d.third);
    assert forall|x: u64| #[trigger] (x ^ 0u64) == x by {
        crate::bits::lemma_word_algebra(x, 0, 0);
    }
    let w = mv.word;
    crate::moves::lemma_word_bits(w);
    lemma_shift_one_bit(crate::moves::word_to(mv.word) as u64);
    lemma_shift_one_bit(crate::moves::word_from(mv.word) as u64);
    let f = mv.from;
    let t = mv.to;
    assert(toggle_at(d.second, 5) == 0 && toggle_at(d.third, 5) == 0);
    assert(toggle_at(d.second, 11) == 0 && toggle_at(d.third, 11) == 0);
    let b3 = apply_delta(b, d);
    assert(f & b.pieces[d.first.index as int] != 0);
    assert forall|kk: int| kk == 5 || kk == 11 implies one_bit(#[trigger] b3.pieces[kk]) by {
        let x = b.pieces[kk];
        assert(one_bit(x)) by {
            if kk == 5 {
            } else {
            }
        }
        assert(b3.pieces[kk] == ((x ^ toggle_at(d.first, kk)) ^ 0u64) ^ 0u64);
        if d.first.index as int == kk {
            assert(d.first.mask == f ^ t);
            lemma_king_bits(x, f, t);
        } else {
            assert(toggle_at(d.first, kk) == 0);
            lemma_king_bits(x, f, t);
        }
    }
}

/// Making a move that fits a consistent position gives a consistent
/// position: the piece bitboards stay pairwise disjoint, each aggregate is
/// the union of its side's bitboards, the aggregates are disjoint, and each
/// side has exactly one king.
pub proof fn lemma_make_keeps_pieces_consistent(b: BoardModel, z: Zobrist, mv: Move)
    requires
        pieces_consistent(b),
        move_fits(b, mv),
    ensures
        pieces_consistent(made(b, z, mv)),
{
    assert forall|i: int, j: int|
        0 <= i < 12 && 0 <= j < 12 && i != j implies #[trigger] (b.pieces[i] & b.pieces[j]) == 0 by {
        if j < i {
            let x = b.pieces[i];
            let y = b.pieces[j];
            assert(y & x == 0);
            crate::bits::lemma_word_algebra(x, y, 0);
        }
    }
    lemma_delta_keeps_bitboards(b, mv);
    lemma_delta_keeps_kings(b, mv);
}


/// A generated move of a position that keeps the invariants leads to a
/// position that keeps them: disjoint bitboards with matching aggregates,
/// one king per side, and castling rights backed by king and rook at home.
pub proof fn lemma_generated_move_keeps_invariants(b: BoardModel, z: Zobrist, mv: Move)
    requires
        position_ok(b),
        generated_from(b, mv),
    ensures
        position_ok(made(b, z, mv)),
{
    lemma_make_keeps_pieces_consistent(b, z, mv);
    crate::makemove::lemma_make_keeps_castling_consistent(b, z, mv);
}
} // verus!
