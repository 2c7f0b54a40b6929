//! Move text in UCI form: `<from><to>[promotion]`, such as `e2e4` or `e7e8q`.

use vstd::prelude::*;
use vstd::string::StringSliceAdditionalSpecFns;
use crate::ascii::{DIGIT_1, LOWER_A, LOWER_B, LOWER_N, LOWER_Q, LOWER_R};
use crate::board::{Chessboard, MAX_PLY};
use crate::fen::{parse_square, square_of_text};
use crate::moves::{Move, word_from, word_kind, word_to};
use crate::movegen::{generate_legal_moves, is_legal, legal_moves};
use crate::tables::AttackTables;

verus! {

/// Why a move text was refused.
#[derive(Clone, Copy, Debug, PartialEq, Eq, Structural)]
pub enum MoveDecodeError {
    /// The text is not two squares and an optional promotion letter.
    Syntax,
    /// No legal move of the position matches the text.
    Illegal,
}

/// The kind of a move, by its tag.
#[derive(Clone, Copy, Debug, PartialEq, Eq, Structural)]
pub enum MoveKind {
    QuietMoves,
    DoublePawnPush,
    KingCastle,
    QueenCastle,
    Captures,
    EpCapture,
    KnightPromotion,
    BishopPromotion,
    RookPromotion,
    QueenPromotion,
    KnightPromotionCapture,
    BishopPromotionCapture,
    RookPromotionCapture,
    QueenPromotionCapture,
}

/// The lowercase letter of promotion tag `kind`, or none for other tags.
pub open spec fn promotion_letter(kind: u16) -> Option<u8> {
    if kind & 8 == 0 {
        None
    } else if kind & 3 == 0 {
        Some(LOWER_N)
    } else if kind & 3 == 1 {
        Some(LOWER_B)
    } else if kind & 3 == 2 {
        Some(LOWER_R)
    } else {
        Some(LOWER_Q)
    }
}

/// The UCI text of a move word: source and destination squares, then the
/// promotion letter if any.
pub open spec fn uci_text(word: u16) -> Seq<u8> {
    let f = word_from(word);
    let t = word_to(word);
    let squares = seq![
        (LOWER_A as u16 + f % 8) as u8,
        (DIGIT_1 as u16 + f / 8) as u8,
        (LOWER_A as u16 + t % 8) as u8,
        (DIGIT_1 as u16 + t / 8) as u8,
    ];
    match promotion_letter(word_kind(word)) {
        Some(c) => squares.push(c),
        None => squares,
    }
}

/// Well-formed move text: two square names, then optionally one of `nbrq`.
pub open spec fn uci_syntax_ok(s: Seq<u8>) -> bool {
    &&& s.len() == 4 || s.len() == 5
    &&& square_of_text(s.subrange(0, 2)) is Some
    &&& square_of_text(s.subrange(2, 4)) is Some
    &&& s.len() == 5 ==> (s[4] == LOWER_N || s[4] == LOWER_B || s[4] == LOWER_R || s[4] == LOWER_Q)
}

impl Move {
    /// The UCI text of the move, as ASCII bytes.
    pub fn uci(&self) -> (r: Vec<u8>)
        ensures
            r@ == uci_text(self.word),
    {
        let f = self.from_square();
        let t = self.to_square();
        let mut v: Vec<u8> = Vec::with_capacity(5);
        v.push((LOWER_A as u64 + f % 8) as u8);
        v.push((DIGIT_1 as u64 + f / 8) as u8);
        v.push((LOWER_A as u64 + t % 8) as u8);
        v.push((DIGIT_1 as u64 + t / 8) as u8);
        let k = self.word & 0xF;
        let w = self.word;
        proof {
            crate::moves::lemma_word_bits(w);
        }
        if k & 8 != 0 {
            let p = k & 3;
            v.push(
                if p == 0 {
                    LOWER_N
                } else if p == 1 {
                    LOWER_B
                } else if p == 2 {
                    LOWER_R
                } else {
                    LOWER_Q
                },
            );
        }
        assert(v@ =~= uci_text(self.word));
        v
    }

    /// The UCI texts of `moves`, in order.
    pub fn get_ucis(moves: &Vec<Move>) -> (r: Vec<Vec<u8>>)
        ensures
            r.len() == moves.len(),
            forall|i: int| 0 <= i < r.len() ==> #[trigger] r[i]@ == uci_text(moves[i].word),
    {
        let mut r: Vec<Vec<u8>> = Vec::with_capacity(moves.len());
        let mut i: usize = 0;
        while i < moves.len()
            invariant
                i <= moves.len(),
                r.len() == i,
                forall|j: int| 0 <= j < i ==> #[trigger] r[j]@ == uci_text(moves[j].word),
            decreases moves.len() - i,
        {
            r.push(moves[i].uci());
            i = i + 1;
        }
        r
    }

    /// The kind of the move, by its tag; none for the unused tags 6 and 7.
    pub fn get_move_kind(&self) -> (r: Option<MoveKind>)
        ensures
            r is None <==> (word_kind(self.word) == 6 || word_kind(self.word) == 7),
    {
        match self.move_kind_code() {
            0 => Some(MoveKind::QuietMoves),
            1 => Some(MoveKind::DoublePawnPush),
            2 => Some(MoveKind::KingCastle),
            3 => Some(MoveKind::QueenCastle),
            4 => Some(MoveKind::Captures),
            5 => Some(MoveKind::EpCapture),
            8 => Some(MoveKind::KnightPromotion),
            9 => Some(MoveKind::BishopPromotion),
            10 => Some(MoveKind::RookPromotion),
            11 => Some(MoveKind::QueenPromotion),
            12 => Some(MoveKind::KnightPromotionCapture),
            13 => Some(MoveKind::BishopPromotionCapture),
            14 => Some(MoveKind::RookPromotionCapture),
            15 => Some(MoveKind::QueenPromotionCapture),
            _ => None,
        }
    }

    /// The legal move of the position that `text` names: its squares and
    /// promotion letter resolve the piece, the captured piece and the tag.
    /// The position is unchanged.
    pub fn decode_uci(chessboard: &mut Chessboard, tables: &AttackTables, text: &str) -> (r: Result<
        Move,
        MoveDecodeError,
    >)
        requires
            old(chessboard).wf(),
            old(chessboard).ply_index < MAX_PLY,
            tables.wf(),
        ensures
            final(chessboard)@ == old(chessboard)@,
            r is Ok ==> is_legal(old(chessboard)@, *tables, r->Ok_0),
            r is Ok ==> uci_text(r->Ok_0.word) == text.spec_bytes(),
            (r is Err && r->Err_0 == MoveDecodeError::Syntax) <==> !uci_syntax_ok(text.spec_bytes()),
            (r is Err && r->Err_0 == MoveDecodeError::Illegal) <==> uci_syntax_ok(text.spec_bytes())
                && forall|j: int|
                0 <= j < legal_moves(old(chessboard)@, *tables).len() ==> uci_text(
                    #[trigger] legal_moves(old(chessboard)@, *tables)[j].word,
                ) != text.spec_bytes(),
    {
        let bytes = text.as_bytes();
        let n = bytes.len();
        if n != 4 && n != 5 {
            return Err(MoveDecodeError::Syntax);
        }
        let from = match parse_square(bytes, 0, 2) {
            Some(s) => s,
            None => return Err(MoveDecodeError::Syntax),
        };
        let to = match parse_square(bytes, 2, 4) {
            Some(s) => s,
            None => return Err(MoveDecodeError::Syntax),
        };
        if n == 5 {
            let c = bytes[4];
            if c != LOWER_N && c != LOWER_B && c != LOWER_R && c != LOWER_Q {
                return Err(MoveDecodeError::Syntax);
            }
        }
        let legal = generate_legal_moves(chessboard, tables);
        let mut i: usize = 0;
        while i < legal.len()
            invariant
                i <= legal.len(),
                crate::movegen::all_generated(old(chessboard)@, legal@),
                forall|j: int|
                    0 <= j < legal.len() ==> #[trigger] is_legal(old(chessboard)@, *tables, legal[j]),
                bytes@ == text.spec_bytes(),
                n == bytes@.len(),
                uci_syntax_ok(bytes@),
                chessboard@ == old(chessboard)@,
                legal@ == legal_moves(old(chessboard)@, *tables),
                forall|j: int| 0 <= j < i ==> uci_text(#[trigger] legal@[j].word) != bytes@,
            decreases legal.len() - i,
        {
            let m = legal[i];
            let u = m.uci();
            if u.len() == n {
                let mut same = true;
                let mut j: usize = 0;
                while j < n
                    invariant
                        j <= n,
                        n == u.len(),
                        n == bytes@.len(),
                        same <==> u@.subrange(0, j as int) =~= bytes@.subrange(0, j as int),
                    decreases n - j,
                {
                    if u[j] != bytes[j] {
                        same = false;
                        assert(u@.subrange(0, j as int + 1)[j as int] != bytes@.subrange(
                            0,
                            j as int + 1,
                        )[j as int]);
                    }
                    assert(same ==> u@.subrange(0, j as int + 1) =~= u@.subrange(0, j as int).push(
                        u@[j as int],
                    ));
                    assert(same ==> bytes@.subrange(0, j as int + 1) =~= bytes@.subrange(
                        0,
                        j as int,
                    ).push(bytes@[j as int]));
                    j = j + 1;
                }
                assert(u@ =~= u@.subrange(0, n as int));
                assert(bytes@ =~= bytes@.subrange(0, n as int));
                if same {
                    assert(is_legal(old(chessboard)@, *tables, legal@[i as int]));
                    return Ok(m);
                }
            }
            assert(uci_text(legal@[i as int].word) != bytes@);
            i = i + 1;
        }
        Err(MoveDecodeError::Illegal)
    }
}

} // verus!
