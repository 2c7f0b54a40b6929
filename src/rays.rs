//! Sliding attacks by scanning rays, and the masks of the leaping pieces.

use vstd::prelude::*;

verus! {

/// Every square of file A.
pub const FILE_A: u64 = 0x0101010101010101;
/// Every square of file B.
pub const FILE_B: u64 = 0x0202020202020202;
/// Every square of file G.
pub const FILE_G: u64 = 0x4040404040404040;
/// Every square of file H.
pub const FILE_H: u64 = 0x8080808080808080;
/// Every square of rank 1.
pub const RANK_1: u64 = 0xFF;
/// Every square of rank 3.
pub const RANK_3: u64 = 0xFF0000;
/// Every square of rank 6.
pub const RANK_6: u64 = 0xFF0000000000;
/// Every square of rank 8.
pub const RANK_8: u64 = 0xFF00000000000000;
/// The squares on the edge of the board.
pub const BORDER: u64 = 0xFF818181818181FF;

/// Whether `(rank, file)` lies on the board.
pub open spec fn on_board(rank: int, file: int) -> bool {
    0 <= rank < 8 && 0 <= file < 8
}

/// The squares a slider on `(rank, file)` reaches stepping by `(dr, df)`:
/// each square up to and including the first one in `block`, or to the edge.
pub open spec fn ray(rank: int, file: int, dr: int, df: int, block: u64, fuel: nat) -> u64
    decreases fuel,
{
    if fuel == 0 || !on_board(rank + dr, file + df) {
        0
    } else {
        let b = 1u64 << ((rank + dr) * 8 + file + df) as u64;
        if block & b != 0 {
            b
        } else {
            b | ray(rank + dr, file + df, dr, df, block, (fuel - 1) as nat)
        }
    }
}

/// The squares a rook on `sq` attacks when the squares of `block` are occupied.
pub open spec fn rook_attacks_spec(sq: int, block: u64) -> u64 {
    ray(sq / 8, sq % 8, 1, 0, block, 7) | ray(sq / 8, sq % 8, -1, 0, block, 7) | ray(
        sq / 8,
        sq % 8,
        0,
        1,
        block,
        7,
    ) | ray(sq / 8, sq % 8, 0, -1, block, 7)
}

/// The squares a bishop on `sq` attacks when the squares of `block` are occupied.
pub open spec fn bishop_attacks_spec(sq: int, block: u64) -> u64 {
    ray(sq / 8, sq % 8, 1, 1, block, 7) | ray(sq / 8, sq % 8, 1, -1, block, 7) | ray(
        sq / 8,
        sq % 8,
        -1,
        1,
        block,
        7,
    ) | ray(sq / 8, sq % 8, -1, -1, block, 7)
}

/// Scans one ray from `(rank, file)` in direction `(dr, df)`.
pub fn slide_ray(rank: i32, file: i32, dr: i32, df: i32, block: u64) -> (r: u64)
    requires
        on_board(rank as int, file as int),
        -1 <= dr <= 1,
        -1 <= df <= 1,
    ensures
        r == ray(rank as int, file as int, dr as int, df as int, block, 7),
{
    let ghost whole = ray(rank as int, file as int, dr as int, df as int, block, 7);
    let mut result: u64 = 0;
    let mut cr = rank;
    let mut cf = file;
    let mut fuel: u32 = 7;
    let mut done = false;
    proof {
        crate::bits::lemma_word_algebra(whole, 0, 0);
    }
    while !done && fuel > 0
        invariant
            on_board(cr as int, cf as int),
            -1 <= dr <= 1,
            -1 <= df <= 1,
            fuel <= 7,
            done ==> result == whole,
            !done ==> result | ray(cr as int, cf as int, dr as int, df as int, block, fuel as nat)
                == whole,
        decreases fuel + (if done { 0int } else { 1int }),
    {
        let nr = cr + dr;
        let nf = cf + df;
        if !(0 <= nr && nr < 8 && 0 <= nf && nf < 8) {
            proof {
                crate::bits::lemma_word_algebra(result, 0, 0);
            }
            done = true;
        } else {
            let b = 1u64 << ((nr * 8 + nf) as u64);
            let ghost rest = ray(nr as int, nf as int, dr as int, df as int, block, (fuel - 1) as nat);
            if block & b != 0 {
                result = result | b;
                done = true;
            } else {
                proof {
                    crate::bits::lemma_word_algebra(result, b, rest);
                }
                result = result | b;
                cr = nr;
                cf = nf;
                fuel = fuel - 1;
            }
        }
    }
    if !done {
        proof {
            crate::bits::lemma_word_algebra(result, 0, 0);
        }
    }
    result
}

/// The squares a rook on `square` attacks when the squares of `block` are
/// occupied, by scanning the four lines.
pub fn rook_attacks(square: u64, block: u64) -> (r: u64)
    requires
        square < 64,
    ensures
        r == rook_attacks_spec(square as int, block),
{
    let rk = (square / 8) as i32;
    let fl = (square % 8) as i32;
    slide_ray(rk, fl, 1, 0, block) | slide_ray(rk, fl, -1, 0, block) | slide_ray(rk, fl, 0, 1, block)
        | slide_ray(rk, fl, 0, -1, block)
}

/// The squares a bishop on `square` attacks when the squares of `block` are
/// occupied, by scanning the four diagonals.
pub fn bishop_attacks(square: u64, block: u64) -> (r: u64)
    requires
        square < 64,
    ensures
        r == bishop_attacks_spec(square as int, block),
{
    let rk = (square / 8) as i32;
    let fl = (square % 8) as i32;
    slide_ray(rk, fl, 1, 1, block) | slide_ray(rk, fl, 1, -1, block) | slide_ray(rk, fl, -1, 1, block)
        | slide_ray(rk, fl, -1, -1, block)
}

/// The squares a rook on `sq` must see to know its attacks: its lines on an
/// empty board without the last square of each.
pub open spec fn rook_mask_spec(sq: int) -> u64 {
    (ray(sq / 8, sq % 8, 1, 0, 0, 7) & !RANK_8) | (ray(sq / 8, sq % 8, -1, 0, 0, 7) & !RANK_1) | (
    ray(sq / 8, sq % 8, 0, 1, 0, 7) & !FILE_H) | (ray(sq / 8, sq % 8, 0, -1, 0, 7) & !FILE_A)
}

/// The squares a bishop on `sq` must see to know its attacks: its diagonals on
/// an empty board without the edge.
pub open spec fn bishop_mask_spec(sq: int) -> u64 {
    bishop_attacks_spec(sq, 0) & !BORDER
}

/// The relevant-occupancy mask of a rook on `square`.
pub fn rook_mask(square: u64) -> (r: u64)
    requires
        square < 64,
    ensures
        r == rook_mask_spec(square as int),
{
    let rk = (square / 8) as i32;
    let fl = (square % 8) as i32;
    (slide_ray(rk, fl, 1, 0, 0) & !RANK_8) | (slide_ray(rk, fl, -1, 0, 0) & !RANK_1) | (slide_ray(
        rk,
        fl,
        0,
        1,
        0,
    ) & !FILE_H) | (slide_ray(rk, fl, 0, -1, 0) & !FILE_A)
}

/// The relevant-occupancy mask of a bishop on `square`.
pub fn bishop_mask(square: u64) -> (r: u64)
    requires
        square < 64,
    ensures
        r == bishop_mask_spec(square as int),
{
    bishop_attacks(square, 0) & !BORDER
}

/// The squares a pawn of `white` (or black) on `sq` attacks.
pub open spec fn pawn_attack_spec(white: bool, sq: u64) -> u64 {
    let b = 1u64 << sq;
    if white {
        ((b & !FILE_A) << 7u64) | ((b & !FILE_H) << 9u64)
    } else {
        ((b & !FILE_A) >> 9u64) | ((b & !FILE_H) >> 7u64)
    }
}

/// The squares a knight on `sq` attacks.
pub open spec fn knight_attack_spec(sq: u64) -> u64 {
    let b = 1u64 << sq;
    ((b & !(FILE_A | FILE_B)) << 6u64) | ((b & !FILE_A) << 15u64) | ((b & !FILE_H) << 17u64) | ((b
        & !(FILE_G | FILE_H)) << 10u64) | ((b & !(FILE_G | FILE_H)) >> 6u64) | ((b & !FILE_H)
        >> 15u64) | ((b & !FILE_A) >> 17u64) | ((b & !(FILE_A | FILE_B)) >> 10u64)
}

/// The squares a king on `sq` attacks.
pub open spec fn king_attack_spec(sq: u64) -> u64 {
    let b = 1u64 << sq;
    let a = b & !FILE_A;
    let h = b & !FILE_H;
    (b << 8u64) | (b >> 8u64) | (a << 7u64) | (a >> 1u64) | (a >> 9u64) | (h << 9u64) | (h << 1u64)
        | (h >> 7u64)
}

/// The pawn attack mask of one side on one square.
pub fn pawn_attack(white: bool, sq: u64) -> (r: u64)
    requires
        sq < 64,
    ensures
        r == pawn_attack_spec(white, sq),
{
    let b = 1u64 << sq;
    if white {
        ((b & !FILE_A) << 7) | ((b & !FILE_H) << 9)
    } else {
        ((b & !FILE_A) >> 9) | ((b & !FILE_H) >> 7)
    }
}

/// The knight attack mask of one square.
pub fn knight_attack(sq: u64) -> (r: u64)
    requires
        sq < 64,
    ensures
        r == knight_attack_spec(sq),
{
    let b = 1u64 << sq;
    ((b & !(FILE_A | FILE_B)) << 6) | ((b & !FILE_A) << 15) | ((b & !FILE_H) << 17) | ((b & !(FILE_G
        | FILE_H)) << 10) | ((b & !(FILE_G | FILE_H)) >> 6) | ((b & !FILE_H) >> 15) | ((b & !FILE_A)
        >> 17) | ((b & !(FILE_A | FILE_B)) >> 10)
}

/// The king attack mask of one square.
pub fn king_attack(sq: u64) -> (r: u64)
    requires
        sq < 64,
    ensures
        r == king_attack_spec(sq),
{
    let b = 1u64 << sq;
    let a = b & !FILE_A;
    let h = b & !FILE_H;
    (b << 8) | (b >> 8) | (a << 7) | (a >> 1) | (a >> 9) | (h << 9) | (h << 1) | (h >> 7)
}


/// Every square the ray from `(rank, file)` in direction `(dr, df)` passes
/// that has an on-board square after it lies in `mask`.
pub open spec fn ray_covered(rank: int, file: int, dr: int, df: int, mask: u64, fuel: nat) -> bool
    decreases fuel,
{
    if fuel == 0 || !on_board(rank + dr, file + df) {
        true
    } else {
        let s = ((rank + dr) * 8 + file + df) as u64;
        (on_board(rank + 2 * dr, file + 2 * df) ==> (mask >> s) & 1 == 1) && ray_covered(
            rank + dr,
            file + df,
            dr,
            df,
            mask,
            (fuel - 1) as nat,
        )
    }
}

proof fn lemma_bit_of_masked(block: u64, mask: u64, s: u64)
    by (bit_vector)
    requires
        s < 64,
        (mask >> s) & 1 == 1,
    ensures
        ((block & mask) & (1u64 << s) != 0) == (block & (1u64 << s) != 0),
{
}

/// A ray reads the occupancy only on covered squares: masking the blockers
/// with a covering mask does not change it.
pub proof fn lemma_ray_relevant(
    rank: int,
    file: int,
    dr: int,
    df: int,
    block: u64,
    mask: u64,
    fuel: nat,
)
    requires
        ray_covered(rank, file, dr, df, mask, fuel),
    ensures
        ray(rank, file, dr, df, block & mask, fuel) == ray(rank, file, dr, df, block, fuel),
    decreases fuel,
{
    if fuel > 0 && on_board(rank + dr, file + df) {
        let s = ((rank + dr) * 8 + file + df) as u64;
        let b = 1u64 << s;
        lemma_ray_relevant(rank + dr, file + df, dr, df, block, mask, (fuel - 1) as nat);
        if on_board(rank + 2 * dr, file + 2 * df) {
            lemma_bit_of_masked(block, mask, s);
        } else {
            assert(ray(rank + dr, file + df, dr, df, block, (fuel - 1) as nat) == 0);
            assert(ray(rank + dr, file + df, dr, df, block & mask, (fuel - 1) as nat) == 0);
            crate::bits::lemma_word_algebra(b, 0, 0);
        }
    }
}


proof fn lemma_cover_bits(m1: u64, m2: u64, s: u64, rest: u64, e: u64)
    by (bit_vector)
    ensures
        (m1 >> s) & 1 == 1 && m1 & !m2 == 0 ==> (m2 >> s) & 1 == 1,
        (rest & !e) & !(((1u64 << s) | rest) & !e) == 0,
        s < 64 && (e >> s) & 1 == 0 ==> ((((1u64 << s) | rest) & !e) >> s) & 1 == 1,
        0u64 & (1u64 << s) == 0,
{
}

/// Covering is kept by a larger mask.
proof fn lemma_covered_grows(rank: int, file: int, dr: int, df: int, m1: u64, m2: u64, fuel: nat)
    requires
        ray_covered(rank, file, dr, df, m1, fuel),
        m1 & !m2 == 0,
    ensures
        ray_covered(rank, file, dr, df, m2, fuel),
    decreases fuel,
{
    if fuel > 0 && on_board(rank + dr, file + df) {
        let s = ((rank + dr) * 8 + file + df) as u64;
        lemma_cover_bits(m1, m2, s, 0, 0);
        lemma_covered_grows(rank + dr, file + df, dr, df, m1, m2, (fuel - 1) as nat);
    }
}

/// The bit of square `(r, f)` in `e`.
pub open spec fn square_bit(e: u64, r: int, f: int) -> u64 {
    (e >> ((r * 8 + f) as u64)) & 1
}

/// No square strictly inside a step in direction `(dr, df)` is in `e`.
pub open spec fn edge_free(e: u64, dr: int, df: int) -> bool {
    forall|r: int, f: int|
        on_board(r - dr, f - df) && on_board(r + dr, f + df) && on_board(r, f) ==> #[trigger] square_bit(
            e,
            r,
            f,
        ) == 0
}

/// The empty-board ray without the edge `e` covers the ray.
proof fn lemma_ray_self_covered(rank: int, file: int, dr: int, df: int, e: u64, fuel: nat)
    requires
        on_board(rank, file),
        edge_free(e, dr, df),
    ensures
        ray_covered(rank, file, dr, df, ray(rank, file, dr, df, 0, fuel) & !e, fuel),
    decreases fuel,
{
    if fuel > 0 && on_board(rank + dr, file + df) {
        let s = ((rank + dr) * 8 + file + df) as u64;
        let rest = ray(rank + dr, file + df, dr, df, 0, (fuel - 1) as nat);
        lemma_cover_bits(0, 0, s, rest, e);
        assert(ray(rank, file, dr, df, 0, fuel) == (1u64 << s) | rest);
        lemma_ray_self_covered(rank + dr, file + df, dr, df, e, (fuel - 1) as nat);
        lemma_covered_grows(
            rank + dr,
            file + df,
            dr,
            df,
            rest & !e,
            ((1u64 << s) | rest) & !e,
            (fuel - 1) as nat,
        );
        if on_board(rank + 2 * dr, file + 2 * df) {
            assert(square_bit(e, rank + dr, file + df) == 0);
        }
    }
}

proof fn lemma_edge_bits(r: u64, f: u64)
    by (bit_vector)
    requires
        r < 8,
        f < 8,
    ensures
        r <= 6 ==> (RANK_8 >> (r * 8 + f)) & 1 == 0,
        r >= 1 ==> (RANK_1 >> (r * 8 + f)) & 1 == 0,
        f <= 6 ==> (FILE_H >> (r * 8 + f)) & 1 == 0,
        f >= 1 ==> (FILE_A >> (r * 8 + f)) & 1 == 0,
        1 <= r <= 6 && 1 <= f <= 6 ==> (BORDER >> (r * 8 + f)) & 1 == 0,
{
}

proof fn lemma_edges_free()
    ensures
        edge_free(RANK_8, 1, 0),
        edge_free(RANK_1, -1, 0),
        edge_free(FILE_H, 0, 1),
        edge_free(FILE_A, 0, -1),
        edge_free(BORDER, 1, 1),
        edge_free(BORDER, 1, -1),
        edge_free(BORDER, -1, 1),
        edge_free(BORDER, -1, -1),
{
    assert forall|r: int, f: int| on_board(r, f) && r <= 6 implies #[trigger] square_bit(RANK_8, r, f)
        == 0 by {
        lemma_edge_bits(r as u64, f as u64);
        assert((r as u64) * 8 + (f as u64) == (r * 8 + f) as u64);
    }
    assert forall|r: int, f: int| on_board(r, f) && r >= 1 implies #[trigger] square_bit(RANK_1, r, f)
        == 0 by {
        lemma_edge_bits(r as u64, f as u64);
        assert((r as u64) * 8 + (f as u64) == (r * 8 + f) as u64);
    }
    assert forall|r: int, f: int| on_board(r, f) && f <= 6 implies #[trigger] square_bit(FILE_H, r, f)
        == 0 by {
        lemma_edge_bits(r as u64, f as u64);
        assert((r as u64) * 8 + (f as u64) == (r * 8 + f) as u64);
    }
    assert forall|r: int, f: int| on_board(r, f) && f >= 1 implies #[trigger] square_bit(FILE_A, r, f)
        == 0 by {
        lemma_edge_bits(r as u64, f as u64);
        assert((r as u64) * 8 + (f as u64) == (r * 8 + f) as u64);
    }
    assert forall|r: int, f: int| on_board(r, f) && 1 <= r <= 6 && 1 <= f <= 6 implies #[trigger] square_bit(BORDER, r, f)
        == 0 by {
        lemma_edge_bits(r as u64, f as u64);
        assert((r as u64) * 8 + (f as u64) == (r * 8 + f) as u64);
    }
}

proof fn lemma_term_bits(a: u64, b: u64, c: u64, d: u64, e1: u64, e2: u64, e3: u64, e4: u64)
    by (bit_vector)
    ensures
        (a & !e1) & !((a & !e1) | (b & !e2) | (c & !e3) | (d & !e4)) == 0,
        (b & !e2) & !((a & !e1) | (b & !e2) | (c & !e3) | (d & !e4)) == 0,
        (c & !e3) & !((a & !e1) | (b & !e2) | (c & !e3) | (d & !e4)) == 0,
        (d & !e4) & !((a & !e1) | (b & !e2) | (c & !e3) | (d & !e4)) == 0,
        (a & !e1) & !((a | b | c | d) & !e1) == 0,
        (b & !e1) & !((a | b | c | d) & !e1) == 0,
        (c & !e1) & !((a | b | c | d) & !e1) == 0,
        (d & !e1) & !((a | b | c | d) & !e1) == 0,
{
}

/// The rook and bishop attacks of a square depend only on the occupied
/// squares of its relevant-occupancy mask.
pub proof fn lemma_attacks_relevant(sq: int, occ: u64)
    requires
        0 <= sq < 64,
    ensures
        rook_attacks_spec(sq, occ & rook_mask_spec(sq)) == rook_attacks_spec(sq, occ),
        bishop_attacks_spec(sq, occ & bishop_mask_spec(sq)) == bishop_attacks_spec(sq, occ),
{
    let r = sq / 8;
    let f = sq % 8;
    lemma_edges_free();
    let n = ray(r, f, 1, 0, 0, 7);
    let so = ray(r, f, -1, 0, 0, 7);
    let ea = ray(r, f, 0, 1, 0, 7);
    let w = ray(r, f, 0, -1, 0, 7);
    let rm = rook_mask_spec(sq);
    lemma_term_bits(n, so, ea, w, RANK_8, RANK_1, FILE_H, FILE_A);
    lemma_ray_self_covered(r, f, 1, 0, RANK_8, 7);
    lemma_covered_grows(r, f, 1, 0, n & !RANK_8, rm, 7);
    lemma_ray_relevant(r, f, 1, 0, occ, rm, 7);
    lemma_ray_self_covered(r, f, -1, 0, RANK_1, 7);
    lemma_covered_grows(r, f, -1, 0, so & !RANK_1, rm, 7);
    lemma_ray_relevant(r, f, -1, 0, occ, rm, 7);
    lemma_ray_self_covered(r, f, 0, 1, FILE_H, 7);
    lemma_covered_grows(r, f, 0, 1, ea & !FILE_H, rm, 7);
    lemma_ray_relevant(r, f, 0, 1, occ, rm, 7);
    lemma_ray_self_covered(r, f, 0, -1, FILE_A, 7);
    lemma_covered_grows(r, f, 0, -1, w & !FILE_A, rm, 7);
    lemma_ray_relevant(r, f, 0, -1, occ, rm, 7);
    let ne = ray(r, f, 1, 1, 0, 7);
    let nw = ray(r, f, 1, -1, 0, 7);
    let se = ray(r, f, -1, 1, 0, 7);
    let sw = ray(r, f, -1, -1, 0, 7);
    let bm = bishop_mask_spec(sq);
    lemma_term_bits(ne, nw, se, sw, BORDER, BORDER, BORDER, BORDER);
    lemma_ray_self_covered(r, f, 1, 1, BORDER, 7);
    lemma_covered_grows(r, f, 1, 1, ne & !BORDER, bm, 7);
    lemma_ray_relevant(r, f, 1, 1, occ, bm, 7);
    lemma_ray_self_covered(r, f, 1, -1, BORDER, 7);
    lemma_covered_grows(r, f, 1, -1, nw & !BORDER, bm, 7);
    lemma_ray_relevant(r, f, 1, -1, occ, bm, 7);
    lemma_ray_self_covered(r, f, -1, 1, BORDER, 7);
    lemma_covered_grows(r, f, -1, 1, se & !BORDER, bm, 7);
    lemma_ray_relevant(r, f, -1, 1, occ, bm, 7);
    lemma_ray_self_covered(r, f, -1, -1, BORDER, 7);
    lemma_covered_grows(r, f, -1, -1, sw & !BORDER, bm, 7);
    lemma_ray_relevant(r, f, -1, -1, occ, bm, 7);
}

} // verus!
