//! Colours, piece kinds and the indexing of the twelve piece bitboards.

use vstd::prelude::*;

verus! {

/// One of the two sides.
#[derive(Clone, Copy, Debug, PartialEq, Eq, Structural)]
pub enum Color {
    White,
    Black,
}

/// The six piece kinds, in the order of the piece bitboards of one side.
#[derive(Clone, Copy, Debug, PartialEq, Eq, Structural)]
pub enum Piece {
    Pawn,
    Rook,
    Knight,
    Bishop,
    Queen,
    King,
}

/// 0 for white, 1 for black.
pub open spec fn color_index(c: Color) -> int {
    match c {
        Color::White => 0,
        Color::Black => 1,
    }
}

/// The position of a kind among the six bitboards of a side.
pub open spec fn piece_index(p: Piece) -> int {
    match p {
        Piece::Pawn => 0,
        Piece::Rook => 1,
        Piece::Knight => 2,
        Piece::Bishop => 3,
        Piece::Queen => 4,
        Piece::King => 5,
    }
}

/// The index of the bitboard of `(c, p)` among the twelve.
pub open spec fn board_index(c: Color, p: Piece) -> int {
    color_index(c) * 6 + piece_index(p)
}

/// The other side.
pub open spec fn opposite(c: Color) -> Color {
    match c {
        Color::White => Color::Black,
        Color::Black => Color::White,
    }
}

impl Color {
    /// The other side.
    pub fn opposite(self) -> (r: Color)
        ensures
            r == opposite(self),
    {
        match self {
            Color::White => Color::Black,
            Color::Black => Color::White,
        }
    }

    /// 0 for white, 1 for black.
    pub fn index(self) -> (r: usize)
        ensures
            r as int == color_index(self),
    {
        match self {
            Color::White => 0,
            Color::Black => 1,
        }
    }
}

impl Piece {
    /// The position of this kind among the six bitboards of a side.
    pub fn index(self) -> (r: usize)
        ensures
            r as int == piece_index(self),
    {
        match self {
            Piece::Pawn => 0,
            Piece::Rook => 1,
            Piece::Knight => 2,
            Piece::Bishop => 3,
            Piece::Queen => 4,
            Piece::King => 5,
        }
    }

    /// The kind at position `value` among the six, if `value` is below 6.
    pub fn try_from_index(value: u64) -> (r: Option<Piece>)
        ensures
            value < 6 <==> r.is_some(),
            r.is_some() ==> piece_index(r.unwrap()) == value,
    {
        match value {
            0 => Some(Piece::Pawn),
            1 => Some(Piece::Rook),
            2 => Some(Piece::Knight),
            3 => Some(Piece::Bishop),
            4 => Some(Piece::Queen),
            5 => Some(Piece::King),
            _ => None,
        }
    }
}

/// The index of the bitboard of `(color, piece)` among the twelve.
pub fn get_piece_index(color: Color, piece: Piece) -> (r: usize)
    ensures
        r as int == board_index(color, piece),
        r < 12,
{
    color.index() * 6 + piece.index()
}

} // verus!
