//! The engine: a position together with the tables it is played with.

use vstd::prelude::*;
use vstd::string::StringSliceAdditionalSpecFns;
use crate::board::{Chessboard, MAX_PLY};
use crate::consistency::{lemma_generated_move_keeps_invariants, position_ok};
use crate::fen::{fen_parse_outcome, full_hash, is_start_position, FenError};
use crate::moves::Move;
use crate::movegen::{is_legal, legal_moves};
use crate::search::{think_spec, Search, SearchError, TTEntry};
use crate::tables::{AttackTables, TableInitError};
use crate::uci::{uci_syntax_ok, uci_text, MoveDecodeError};

verus! {

/// Why an engine could not be set up.
#[derive(Clone, Copy, Debug, PartialEq, Eq, Structural)]
pub enum EngineError {
    /// The attack tables could not be built.
    Tables(TableInitError),
    /// The FEN string was refused.
    Fen(FenError),
}

/// The position an engine result holds, or the FEN error it reports (a
/// table error is read as a field-count error; the contracts that use it
/// exclude table errors first).
pub open spec fn board_result(r: Result<Engine, EngineError>) -> Result<Chessboard, FenError> {
    match r {
        Ok(e) => Ok(e.chessboard),
        Err(EngineError::Fen(x)) => Err(x),
        Err(EngineError::Tables(_)) => Err(FenError::FieldCount),
    }
}

/// A position and the tables it is played with.
pub struct Engine {
    /// The current position.
    pub chessboard: Chessboard,
    /// The precomputed tables.
    pub tables: AttackTables,
}

impl Engine {
    /// Well-formed tables, and a well-formed position that keeps the
    /// bitboard and castling invariants.
    pub open spec fn wf(&self) -> bool {
        &&& self.chessboard.wf()
        &&& self.tables.wf()
        &&& position_ok(self.chessboard@)
    }

    /// An engine on the standard starting position.
    pub fn new() -> (r: Result<Engine, EngineError>)
        ensures
            r is Ok ==> r->Ok_0.wf() && r->Ok_0.chessboard.ply_index == 0,
            r is Ok ==> is_start_position(r->Ok_0.chessboard@)
                && r->Ok_0.chessboard.state.zobrist_hash_key == full_hash(
                r->Ok_0.chessboard@,
                r->Ok_0.tables.zobrist,
            ),
            r is Err ==> r->Err_0 is Tables,
    {
        let tables = match AttackTables::new() {
            Ok(t) => t,
            Err(e) => return Err(EngineError::Tables(e)),
        };
        let chessboard = Chessboard::new(&tables);
        Ok(Engine { chessboard, tables })
    }

    /// An engine on the position of a FEN string, played with tables built
    /// beforehand (as from the packaged magic records).
    pub fn with_tables(tables: AttackTables, fen: &str) -> (r: Result<Engine, EngineError>)
        requires
            tables.wf(),
        ensures
            r is Ok ==> r->Ok_0.wf() && r->Ok_0.chessboard.ply_index == 0,
            r is Err ==> r->Err_0 is Fen,
            fen_parse_outcome(fen.spec_bytes(), board_result(r)),
            r is Ok ==> r->Ok_0.tables == tables,
    {
        match Chessboard::from_fen(&tables, fen) {
            Ok(chessboard) => Ok(Engine { chessboard, tables }),
            Err(e) => Err(EngineError::Fen(e)),
        }
    }

    /// An engine on the position of a FEN string.
    pub fn from_fen(fen: &str) -> (r: Result<Engine, EngineError>)
        ensures
            r is Ok ==> r->Ok_0.wf() && r->Ok_0.chessboard.ply_index == 0,
            !(r is Err && r->Err_0 is Tables) ==> fen_parse_outcome(fen.spec_bytes(), board_result(r)),
    {
        let tables = match AttackTables::new() {
            Ok(t) => t,
            Err(e) => return Err(EngineError::Tables(e)),
        };
        match Chessboard::from_fen(&tables, fen) {
            Ok(chessboard) => Ok(Engine { chessboard, tables }),
            Err(e) => Err(EngineError::Fen(e)),
        }
    }

    /// Plays the legal move named by UCI text `text`.
    pub fn play_uci(&mut self, text: &str) -> (r: Result<Move, MoveDecodeError>)
        requires
            old(self).wf(),
            old(self).chessboard.ply_index < MAX_PLY,
        ensures
            final(self).wf(),
            r is Err ==> final(self).chessboard@ == old(self).chessboard@,
            (r is Err && r->Err_0 == MoveDecodeError::Syntax) <==> !uci_syntax_ok(text.spec_bytes()),
            (r is Err && r->Err_0 == MoveDecodeError::Illegal) <==> uci_syntax_ok(text.spec_bytes())
                && forall|j: int|
                0 <= j < legal_moves(old(self).chessboard@, old(self).tables).len() ==> uci_text(
                    #[trigger] legal_moves(old(self).chessboard@, old(self).tables)[j].word,
                ) != text.spec_bytes(),
            r is Ok ==> is_legal(old(self).chessboard@, old(self).tables, r->Ok_0),
            r is Ok ==> final(self).chessboard@ == crate::board::made(
                old(self).chessboard@,
                old(self).tables.zobrist,
                r->Ok_0,
            ),
    {
        let ghost before = self.chessboard@;
        let mv = Move::decode_uci(&mut self.chessboard, &self.tables, text)?;
        self.chessboard.make(&self.tables, &mv);
        proof {
            lemma_generated_move_keeps_invariants(before, self.tables.zobrist, mv);
        }
        Ok(mv)
    }

    /// The best move found by a search of depth `depth` below each root move.
    pub fn best_move(&mut self, depth: u32) -> (r: Result<Move, SearchError>)
        requires
            old(self).wf(),
            old(self).chessboard.ply_index + depth + 1 < MAX_PLY,
        ensures
            final(self).wf(),
            final(self).chessboard@ == old(self).chessboard@,
            r is Ok ==> is_legal(old(self).chessboard@, old(self).tables, r->Ok_0),
            r is Err <==> legal_moves(old(self).chessboard@, old(self).tables).len() == 0,
            ({
                let st = think_spec(
                    old(self).chessboard@,
                    old(self).tables,
                    Map::<u64, TTEntry>::empty(),
                    depth as nat,
                );
                &&& r is Ok <==> st.best is Some
                &&& r is Ok ==> r->Ok_0 == st.best->Some_0
            }),
    {
        let mut search = Search::new(depth);
        search.think(&mut self.chessboard, &self.tables)
    }
}

} // verus!
