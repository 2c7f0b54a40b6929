//! A bitboard chess engine core: position, move generation with magic
//! bitboards, reversible make / unmake, perft and an alpha-beta search.

pub mod ascii;
pub mod bits;
pub mod moves;
pub mod types;
pub mod rays;
pub mod tables;
pub mod state;
pub mod board;
pub mod makemove;
pub mod attacks;
pub mod movegen;
pub mod fen;
pub mod evaluation;
pub mod search;
pub mod pieces;
pub mod uci;
pub mod engine;
pub mod consistency;

use vstd::prelude::*;
use ascii::{DIGIT_0, DIGIT_1};

verus! {

/// The bits of `value` as ASCII `0` and `1` digits, most significant first.
pub fn as_064b(value: u64) -> (r: Vec<u8>)
    ensures
        r@.len() == 64,
        forall|i: int|
            0 <= i < 64 ==> #[trigger] r@[i] == (if (value >> (63 - i) as u64) & 1 == 1 {
                DIGIT_1
            } else {
                DIGIT_0
            }),
{
    let mut v: Vec<u8> = Vec::with_capacity(64);
    let mut i: u64 = 0;
    while i < 64
        invariant
            i <= 64,
            v@.len() == i,
            forall|j: int|
                0 <= j < i ==> #[trigger] v@[j] == (if (value >> (63 - j) as u64) & 1 == 1 {
                    DIGIT_1
                } else {
                    DIGIT_0
                }),
        decreases 64 - i,
    {
        v.push(
            if (value >> (63 - i)) & 1 == 1 {
                DIGIT_1
            } else {
                DIGIT_0
            },
        );
        i = i + 1;
    }
    v
}

/// Counts the leaves of the legal move tree of depth `depth` from
/// `chessboard`; the position is the same afterwards.
pub fn perft(chessboard: &mut board::Chessboard, tables: &tables::AttackTables, depth: u8) -> (r:
    u64)
    requires
        old(chessboard).wf(),
        tables.wf(),
        old(chessboard).ply_index + depth <= board::MAX_PLY,
    ensures
        final(chessboard)@ == old(chessboard)@,
        r == movegen::perft_spec(old(chessboard)@, *tables, depth as nat),
{
    chessboard.perft(tables, depth)
}

} // verus!
