//! The 16-bit move word and the move value built around it.

use vstd::prelude::*;
use crate::types::Piece;

verus! {

/// A quiet move.
pub const QUIET: u16 = 0;
/// A pawn advancing two squares.
pub const DOUBLE_PAWN_PUSH: u16 = 1;
/// Castling on the king's wing.
pub const KING_CASTLE: u16 = 2;
/// Castling on the queen's wing.
pub const QUEEN_CASTLE: u16 = 3;
/// A capture on the destination square.
pub const CAPTURE: u16 = 4;
/// A pawn capturing en passant.
pub const EP_CAPTURE: u16 = 5;
/// A promotion to a knight; 9, 10 and 11 promote to bishop, rook and queen.
pub const KNIGHT_PROMOTION: u16 = 8;
/// A promotion to a knight with a capture; 13, 14 and 15 promote to bishop,
/// rook and queen.
pub const KNIGHT_PROMOTION_CAPTURE: u16 = 12;

/// The source square of a move word.
pub open spec fn word_from(word: u16) -> u16 {
    word >> 10u16
}

/// The destination square of a move word.
pub open spec fn word_to(word: u16) -> u16 {
    (word >> 4u16) & 0x3f
}

/// The kind tag of a move word.
pub open spec fn word_kind(word: u16) -> u16 {
    word & 0xf
}

/// The word of a move from `from` to `to` with kind tag `kind`.
pub open spec fn make_word(from: u16, to: u16, kind: u16) -> u16 {
    ((from << 10u16) | (to << 4u16) | kind) as u16
}

/// The piece a promotion tag turns the pawn into.
pub open spec fn promotion_piece_spec(kind: u16) -> Piece {
    if kind & 3 == 0 {
        Piece::Knight
    } else if kind & 3 == 1 {
        Piece::Bishop
    } else if kind & 3 == 2 {
        Piece::Rook
    } else {
        Piece::Queen
    }
}

/// Facts about the fields of a move word.
pub proof fn lemma_word_bits(w: u16)
    by (bit_vector)
    ensures
        w >> 10u16 < 64,
        (w >> 4u16) & 0x3f < 64,
        w & 0xf < 16,
        (w & 0xe == 2) <==> ((w & 0xf) == 2 || (w & 0xf) == 3),
        (w & 4 != 0) <==> ((w & 0xf) & 4 != 0),
        (w & 8 != 0) <==> ((w & 0xf) & 8 != 0),
        (w & 0xf) & 3 == w & 3,
        (w & 0xf) & 8 == w & 8,
{
}

/// A move: the packed word, plus the moving piece kind and the kind of the
/// piece it captures, cached at generation.
#[derive(Clone, Copy, Debug, PartialEq, Eq, Structural)]
pub struct Move {
    /// Bits 10-15 source square, bits 4-9 destination square, bits 0-3 kind.
    pub word: u16,
    /// The kind of the moving piece.
    pub piece_type: Piece,
    /// The kind of the captured piece, if any.
    pub captured_piece: Option<Piece>,
    /// The source square as a single-bit mask.
    pub from: u64,
    /// The destination square as a single-bit mask.
    pub to: u64,
}

impl Move {
    /// The cached masks agree with the word.
    pub open spec fn wf(&self) -> bool {
        &&& self.from == 1u64 << (word_from(self.word) as u64)
        &&& self.to == 1u64 << (word_to(self.word) as u64)
    }

    /// The kind tag.
    pub open spec fn kind(&self) -> u16 {
        word_kind(self.word)
    }

    /// Builds a move from its word, the moving piece kind and the captured kind.
    pub fn from(word: u16, piece_type: Piece, captured_piece: Option<Piece>) -> (r: Move)
        ensures
            r.wf(),
            r.word == word,
            r.piece_type == piece_type,
            r.captured_piece == captured_piece,
    {
        proof {
            lemma_word_bits(word);
        }
        let from = 1u64 << (word >> 10);
        let to = 1u64 << ((word >> 4) & 0x3F);
        Move { word, piece_type, captured_piece, from, to }
    }

    /// The source square index.
    pub fn from_square(&self) -> (r: u64)
        ensures
            r == word_from(self.word) as u64,
            r < 64,
    {
        let w = self.word;
        proof {
            lemma_word_bits(w);
        }
        (self.word >> 10) as u64
    }

    /// The destination square index.
    pub fn to_square(&self) -> (r: u64)
        ensures
            r == word_to(self.word) as u64,
            r < 64,
    {
        let w = self.word;
        proof {
            lemma_word_bits(w);
        }
        ((self.word >> 4) & 0x3F) as u64
    }

    /// The kind tag, 0 to 15.
    pub fn move_kind_code(&self) -> (r: u8)
        ensures
            r as u16 == word_kind(self.word),
            r < 16,
    {
        let w = self.word;
        proof {
            lemma_word_bits(w);
        }
        (self.word & 0xF) as u8
    }

    /// Whether the move castles (tag `001x`).
    pub fn castle_flag(&self) -> (r: bool)
        ensures
            r <==> (word_kind(self.word) == KING_CASTLE || word_kind(self.word) == QUEEN_CASTLE),
    {
        let w = self.word;
        proof {
            lemma_word_bits(w);
        }
        (self.word & 0b1110) == 0b0010
    }

    /// Whether the move captures (tag bit 2).
    pub fn capture_flag(&self) -> (r: bool)
        ensures
            r <==> word_kind(self.word) & 4 != 0,
    {
        let w = self.word;
        proof {
            lemma_word_bits(w);
        }
        (self.word & 0b0100) != 0
    }

    /// Whether the move promotes (tag bit 3).
    pub fn promotion_flag(&self) -> (r: bool)
        ensures
            r <==> word_kind(self.word) & 8 != 0,
    {
        let w = self.word;
        proof {
            lemma_word_bits(w);
        }
        (self.word & 0b1000) != 0
    }

    /// The piece a promotion turns the pawn into.
    pub fn promotion_piece(&self) -> (r: Piece)
        ensures
            r == promotion_piece_spec(word_kind(self.word)),
    {
        let w = self.word;
        proof {
            lemma_word_bits(w);
        }
        let p = self.word & 3;
        if p == 0 {
            Piece::Knight
        } else if p == 1 {
            Piece::Bishop
        } else if p == 2 {
            Piece::Rook
        } else {
            Piece::Queen
        }
    }
}

} // verus!
