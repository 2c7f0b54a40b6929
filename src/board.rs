//! The position: twelve piece bitboards, the two side aggregates, the
//! irreversible state and the undo stack; make and unmake.

use vstd::prelude::*;
use crate::moves::{
    Move, word_kind, word_from, word_to, promotion_piece_spec, DOUBLE_PAWN_PUSH, EP_CAPTURE,
    KING_CASTLE, QUEEN_CASTLE,
};
use crate::state::{State, Undo, castling_index};
use crate::tables::Zobrist;
use crate::types::{Color, Piece, board_index, get_piece_index, opposite};

verus! {

broadcast use vstd::std_specs::bits::axiom_u64_trailing_zeros;

/// The capacity of the undo stack, in plies.
pub const MAX_PLY: usize = 8192;

/// The square masks the castling rules read.
pub const A1: u64 = 0x1;
pub const B1: u64 = 0x2;
pub const C1: u64 = 0x4;
pub const D1: u64 = 0x8;
pub const E1: u64 = 0x10;
pub const F1: u64 = 0x20;
pub const G1: u64 = 0x40;
pub const H1: u64 = 0x80;
pub const A8: u64 = 0x0100_0000_0000_0000;
pub const B8: u64 = 0x0200_0000_0000_0000;
pub const C8: u64 = 0x0400_0000_0000_0000;
pub const D8: u64 = 0x0800_0000_0000_0000;
pub const E8: u64 = 0x1000_0000_0000_0000;
pub const F8: u64 = 0x2000_0000_0000_0000;
pub const G8: u64 = 0x4000_0000_0000_0000;
pub const H8: u64 = 0x8000_0000_0000_0000;

/// Exclusive-or of `mask` into piece bitboard `index` (and into its side's
/// aggregate).
#[derive(Clone, Copy, Debug, PartialEq, Eq, Structural)]
pub struct Toggle {
    /// The piece bitboard, 0 to 11; below 6 is white.
    pub index: usize,
    /// The squares toggled.
    pub mask: u64,
}

/// The three toggles that carry out a move; unused ones have an empty mask.
#[derive(Clone, Copy, Debug, PartialEq, Eq, Structural)]
pub struct MoveDelta {
    pub first: Toggle,
    pub second: Toggle,
    pub third: Toggle,
}

/// The abstract position.
pub struct BoardModel {
    pub pieces: Seq<u64>,
    pub white: u64,
    pub black: u64,
    pub state: State,
    pub stack: Seq<Undo>,
    pub ply: int,
}

/// The toggle of `mask` on bitboard `(c, p)`.
pub open spec fn toggle_of(c: Color, p: Piece, mask: u64) -> Toggle {
    Toggle { index: board_index(c, p) as usize, mask }
}

/// A toggle that changes nothing.
pub open spec fn no_toggle() -> Toggle {
    Toggle { index: 0, mask: 0 }
}

/// The opponent pawn a pawn of `side` captures en passant when it lands on `to`.
pub open spec fn ep_victim(side: Color, to: u64) -> u64 {
    match side {
        Color::White => to >> 8u64,
        Color::Black => to << 8u64,
    }
}

/// The toggle that removes the captured piece on `to`, if the move captures.
pub open spec fn capture_toggle(mv: Move, side: Color, captured: Option<Piece>) -> Toggle {
    if word_kind(mv.word) & 4 != 0 && captured is Some {
        toggle_of(opposite(side), captured->Some_0, mv.to)
    } else {
        no_toggle()
    }
}

/// What `mv` played by `side`, capturing `captured`, does to the bitboards.
pub open spec fn move_delta(mv: Move, side: Color, captured: Option<Piece>) -> MoveDelta {
    let k = word_kind(mv.word);
    let white = side == Color::White;
    if k == KING_CASTLE {
        MoveDelta {
            first: toggle_of(side, Piece::King, mv.from ^ mv.to),
            second: toggle_of(side, Piece::Rook, if white { H1 | F1 } else { H8 | F8 }),
            third: no_toggle(),
        }
    } else if k == QUEEN_CASTLE {
        MoveDelta {
            first: toggle_of(side, Piece::King, mv.from ^ mv.to),
            second: toggle_of(side, Piece::Rook, if white { A1 | D1 } else { A8 | D8 }),
            third: no_toggle(),
        }
    } else if k == EP_CAPTURE {
        MoveDelta {
            first: toggle_of(side, Piece::Pawn, mv.from ^ mv.to),
            second: toggle_of(opposite(side), Piece::Pawn, ep_victim(side, mv.to)),
            third: no_toggle(),
        }
    } else if k & 8 != 0 {
        MoveDelta {
            first: toggle_of(side, Piece::Pawn, mv.from),
            second: toggle_of(side, promotion_piece_spec(k), mv.to),
            third: capture_toggle(mv, side, captured),
        }
    } else {
        MoveDelta {
            first: toggle_of(side, mv.piece_type, mv.from ^ mv.to),
            second: capture_toggle(mv, side, captured),
            third: no_toggle(),
        }
    }
}

/// The position after one toggle.
pub open spec fn toggle_model(b: BoardModel, t: Toggle) -> BoardModel {
    BoardModel {
        pieces: b.pieces.update(t.index as int, b.pieces[t.index as int] ^ t.mask),
        white: if t.index < 6 { b.white ^ t.mask } else { b.white },
        black: if t.index < 6 { b.black } else { b.black ^ t.mask },
        ..b
    }
}

/// The position after the three toggles of `d`.
pub open spec fn apply_delta(b: BoardModel, d: MoveDelta) -> BoardModel {
    toggle_model(toggle_model(toggle_model(b, d.first), d.second), d.third)
}

/// `x + 1`, held at the largest value.
pub open spec fn sat_inc(x: u32) -> u32 {
    if x < u32::MAX {
        (x + 1) as u32
    } else {
        x
    }
}

/// The Zobrist terms of the squares of `mask` on bitboard `index`.
pub open spec fn mask_hash(keys: Seq<u64>, index: int, mask: u64) -> u64
    decreases mask,
{
    if mask == 0 {
        0
    } else {
        proof {
            crate::bits::lemma_clear_lowest_decreases(mask);
        }
        keys[index * 64 + vstd::std_specs::bits::u64_trailing_zeros(mask)] ^ mask_hash(
            keys,
            index,
            mask & vstd::prelude::sub(mask, 1),
        )
    }
}

/// The Zobrist terms of the three toggles of a move.
pub open spec fn delta_hash(z: Zobrist, d: MoveDelta) -> u64 {
    mask_hash(z.piece_square@, d.first.index as int, d.first.mask) ^ mask_hash(
        z.piece_square@,
        d.second.index as int,
        d.second.mask,
    ) ^ mask_hash(z.piece_square@, d.third.index as int, d.third.mask)
}

/// The Zobrist term of an en-passant target.
pub open spec fn ep_hash(z: Zobrist, ep: Option<u64>) -> u64 {
    match ep {
        Some(sq) => z.en_passant_file@[(sq % 8) as int],
        None => 0,
    }
}

/// The state after `mv` from `b`, before the hash is updated.
pub open spec fn made_state_unhashed(b: BoardModel, mv: Move) -> State {
    let side = b.state.turn_color;
    let np = apply_delta(b, move_delta(mv, side, mv.captured_piece)).pieces;
    let k = word_kind(mv.word);
    let s = b.state;
    State {
        turn_color: opposite(side),
        full_move_number: if side == Color::Black {
            sat_inc(s.full_move_number)
        } else {
            s.full_move_number
        },
        half_move_clock: if mv.piece_type == Piece::Pawn || k & 4 != 0 {
            0
        } else {
            sat_inc(s.half_move_clock)
        },
        can_white_king_castle: s.can_white_king_castle && np[5] & E1 != 0 && np[1] & H1 != 0,
        can_white_queen_castle: s.can_white_queen_castle && np[5] & E1 != 0 && np[1] & A1 != 0,
        can_black_king_castle: s.can_black_king_castle && np[11] & E8 != 0 && np[7] & H8 != 0,
        can_black_queen_castle: s.can_black_queen_castle && np[11] & E8 != 0 && np[7] & A8 != 0,
        en_passant_square: if k == DOUBLE_PAWN_PUSH {
            Some(((word_from(mv.word) + word_to(mv.word)) / 2) as u64)
        } else {
            None
        },
        captured_piece: mv.captured_piece,
        zobrist_hash_key: s.zobrist_hash_key,
    }
}

/// The state after `mv` from `b`.
pub open spec fn made_state(b: BoardModel, z: Zobrist, mv: Move) -> State {
    let s = made_state_unhashed(b, mv);
    let d = move_delta(mv, b.state.turn_color, mv.captured_piece);
    State {
        zobrist_hash_key: b.state.zobrist_hash_key ^ delta_hash(z, d)
            ^ z.castling_rights@[castling_index(b.state)] ^ z.castling_rights@[castling_index(s)]
            ^ ep_hash(z, b.state.en_passant_square) ^ ep_hash(z, s.en_passant_square)
            ^ z.black_to_move,
        ..s
    }
}

/// The position after making `mv` in `b`.
pub open spec fn made(b: BoardModel, z: Zobrist, mv: Move) -> BoardModel {
    let moved = apply_delta(b, move_delta(mv, b.state.turn_color, mv.captured_piece));
    BoardModel {
        state: made_state(b, z, mv),
        stack: b.stack.push(Undo { captured_piece: mv.captured_piece, state: b.state }),
        ply: b.ply + 1,
        ..moved
    }
}

/// The position after unmaking `mv` in `b`.
pub open spec fn unmade(b: BoardModel, mv: Move) -> BoardModel {
    let top = b.stack.last();
    let moved = apply_delta(b, move_delta(mv, top.state.turn_color, top.captured_piece));
    BoardModel { state: top.state, stack: b.stack.drop_last(), ply: b.ply - 1, ..moved }
}

/// Castling rights agree with the board: a right of a side on a wing
/// implies its king on its home square and its rook on that wing's corner.
pub open spec fn castling_consistent(b: BoardModel) -> bool {
    &&& b.state.can_white_king_castle ==> b.pieces[5] & E1 != 0 && b.pieces[1] & H1 != 0
    &&& b.state.can_white_queen_castle ==> b.pieces[5] & E1 != 0 && b.pieces[1] & A1 != 0
    &&& b.state.can_black_king_castle ==> b.pieces[11] & E8 != 0 && b.pieces[7] & H8 != 0
    &&& b.state.can_black_queen_castle ==> b.pieces[11] & E8 != 0 && b.pieces[7] & A8 != 0
}

/// A chess position with its undo stack.
#[derive(Clone)]
pub struct Chessboard {
    /// The twelve piece bitboards: white pawn, rook, knight, bishop, queen,
    /// king, then black in the same order.
    pub pieces: Vec<u64>,
    /// The squares of white pieces.
    pub white_pieces: u64,
    /// The squares of black pieces.
    pub black_pieces: u64,
    /// The current irreversible state.
    pub state: State,
    /// One record per make not yet undone: the piece it captured and the
    /// state before it.
    pub state_stack: Vec<Undo>,
    /// The number of makes not yet undone.
    pub ply_index: usize,
}

impl Default for Chessboard {
    /// An empty board, white to move, with every castling right set and an
    /// empty undo stack.
    fn default() -> (r: Chessboard)
        ensures
            r.wf(),
            r.ply_index == 0,
            forall|i: int| 0 <= i < 12 ==> r.pieces[i] == 0,
            r.white_pieces == 0 && r.black_pieces == 0,
    {
        let mut pieces: Vec<u64> = Vec::with_capacity(12);
        while pieces.len() < 12
            invariant
                pieces.len() <= 12,
                forall|i: int| 0 <= i < pieces.len() ==> pieces[i] == 0,
            decreases 12 - pieces.len(),
        {
            pieces.push(0);
        }
        Chessboard {
            pieces,
            white_pieces: 0,
            black_pieces: 0,
            state: State::default(),
            state_stack: Vec::new(),
            ply_index: 0,
        }
    }
}

impl View for Chessboard {
    type V = BoardModel;

    open spec fn view(&self) -> BoardModel {
        BoardModel {
            pieces: self.pieces@,
            white: self.white_pieces,
            black: self.black_pieces,
            state: self.state,
            stack: self.state_stack@,
            ply: self.ply_index as int,
        }
    }
}

impl Chessboard {
    /// Twelve bitboards, and one undo record per ply within the capacity.
    pub open spec fn wf(&self) -> bool {
        &&& self.pieces.len() == 12
        &&& self.ply_index == self.state_stack.len()
        &&& self.ply_index <= MAX_PLY
    }

    /// The bitboard of `(color, piece)`.
    pub fn get_piece(&self, color: Color, piece: Piece) -> (r: u64)
        requires
            self.wf(),
        ensures
            r == self.pieces[board_index(color, piece)],
    {
        self.pieces[get_piece_index(color, piece)]
    }

    /// Every occupied square.
    pub fn get_all_pieces(&self) -> (r: u64)
        ensures
            r == self.white_pieces | self.black_pieces,
    {
        self.white_pieces | self.black_pieces
    }

    /// The squares of one side.
    pub fn get_color_pieces(&self, color: Color) -> (r: u64)
        ensures
            r == (if color == Color::White { self.white_pieces } else { self.black_pieces }),
    {
        match color {
            Color::White => self.white_pieces,
            Color::Black => self.black_pieces,
        }
    }

    /// The side to move.
    pub fn get_current_turn(&self) -> (r: Color)
        ensures
            r == self.state.turn_color,
    {
        self.state.turn_color
    }

    /// Whether any square of `squares` holds a piece.
    pub fn any_occupied_square(&self, squares: u64) -> (r: bool)
        ensures
            r == (squares & (self.white_pieces | self.black_pieces) != 0),
    {
        (squares & self.get_all_pieces()) != 0
    }

    /// Toggles `mask` on bitboard `index` and on its side's aggregate: puts a
    /// piece on empty squares or takes it off its squares.
    pub fn toggle_piece(&mut self, index: usize, mask: u64)
        requires
            old(self).wf(),
            index < 12,
        ensures
            final(self).wf(),
            final(self)@ == toggle_model(old(self)@, Toggle { index, mask }),
    {
        let v = self.pieces[index] ^ mask;
        self.pieces.set(index, v);
        if index < 6 {
            self.white_pieces = self.white_pieces ^ mask;
        } else {
            self.black_pieces = self.black_pieces ^ mask;
        }
    }

    /// Moves the piece of bitboard `index` from square mask `from` to `to`.
    pub fn slide_piece(&mut self, index: usize, from: u64, to: u64)
        requires
            old(self).wf(),
            index < 12,
        ensures
            final(self).wf(),
            final(self)@ == toggle_model(old(self)@, Toggle { index, mask: from ^ to }),
    {
        self.toggle_piece(index, from ^ to);
    }

    /// Whether castling on either wing is still allowed to the side to move.
    pub fn should_check_castling(&self) -> (r: bool)
        ensures
            r == (if self.state.turn_color == Color::White {
                self.state.can_white_king_castle || self.state.can_white_queen_castle
            } else {
                self.state.can_black_king_castle || self.state.can_black_queen_castle
            }),
    {
        match self.state.turn_color {
            Color::White => self.state.can_white_king_castle || self.state.can_white_queen_castle,
            Color::Black => self.state.can_black_king_castle || self.state.can_black_queen_castle,
        }
    }
}

} // verus!
