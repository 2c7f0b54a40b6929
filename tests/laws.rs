use chess_engine::board::Chessboard;
use chess_engine::engine::{Engine, EngineError};
use chess_engine::fen::FenError;
use chess_engine::movegen::generate_moves;
use chess_engine::moves::Move;
use chess_engine::tables::{AttackTables, SliderTable, TableInitError};
use chess_engine::types::Color;

const FENS: [&str; 6] = [
    "rnbqkbnr/pppppppp/8/8/8/8/PPPPPPPP/RNBQKBNR w KQkq - 0 1",
    "r3k2r/p1ppqpb1/bn2pnp1/3PN3/1p2P3/2N2Q1p/PPPBBPPP/R3K2R w KQkq - 0 1",
    "8/2p5/3p4/KP5r/1R3p1k/8/4P1P1/8 w - - 0 1",
    "r3k2r/Pppp1ppp/1b3nbN/nP6/BBP1P3/q4N2/Pp1P2PP/R2Q1RK1 w kq - 0 1",
    "rnbq1k1r/pp1Pbppp/2p5/8/2B5/8/PPP1NnPP/RNBQK2R w KQ - 1 8",
    "8/2p5/3p4/KP5r/1R3pPk/8/4P3/8 b - g3 0 1",
];

fn castling_backed(b: &Chessboard) -> bool {
    let p = &b.pieces;
    let e1 = 1u64 << 4;
    let e8 = 1u64 << 60;
    (!b.state.can_white_king_castle || (p[5] & e1 != 0 && p[1] & (1u64 << 7) != 0))
        && (!b.state.can_white_queen_castle || (p[5] & e1 != 0 && p[1] & 1 != 0))
        && (!b.state.can_black_king_castle || (p[11] & e8 != 0 && p[7] & (1u64 << 63) != 0))
        && (!b.state.can_black_queen_castle || (p[11] & e8 != 0 && p[7] & (1u64 << 56) != 0))
}

#[test]
fn generated_moves_keep_bitboards_consistent() {
    let tables = AttackTables::new().unwrap();
    for fen in FENS {
        let mut chessboard = Chessboard::from_fen(&tables, fen).unwrap();
        assert!(chessboard.is_consistent());
        for mv in generate_moves(&chessboard, &tables).iter() {
            chessboard.make(&tables, mv);
            assert!(chessboard.is_consistent());
            assert!(castling_backed(&chessboard));
            let double_push = mv.move_kind_code() == 1;
            assert_eq!(chessboard.state.en_passant_square.is_some(), double_push);
            chessboard.unmake(mv);
        }
    }
}

#[test]
fn two_plies_keep_invariants() {
    let tables = AttackTables::new().unwrap();
    let mut chessboard = Chessboard::from_fen(&tables, FENS[1]).unwrap();
    for a in generate_moves(&chessboard, &tables).iter() {
        chessboard.make(&tables, a);
        if !chessboard.is_in_check(&tables, Color::White) {
            for b in generate_moves(&chessboard, &tables).iter() {
                chessboard.make(&tables, b);
                assert!(chessboard.is_consistent());
                assert!(castling_backed(&chessboard));
                chessboard.unmake(b);
            }
        }
        chessboard.unmake(a);
    }
}

#[test]
fn incremental_hash_matches_fresh_hash() {
    let tables = AttackTables::new().unwrap();
    for fen in FENS {
        let mut chessboard = Chessboard::from_fen(&tables, fen).unwrap();
        for mv in generate_moves(&chessboard, &tables).iter() {
            chessboard.make(&tables, mv);
            assert_eq!(chessboard.state.zobrist_hash_key, chessboard.compute_hash(&tables.zobrist));
            chessboard.unmake(mv);
        }
    }
}

#[test]
fn magic_records_build_working_tables() {
    let rook = SliderTable::find_magics(true).unwrap();
    let bishop = SliderTable::find_magics(false).unwrap();
    assert_eq!(rook.len(), 64);
    assert_eq!(rook[63].square, 63);
    let tables = AttackTables::from_magic_tables(&rook, &bishop).unwrap();
    let mut chessboard = Chessboard::new(&tables);
    assert_eq!(chessboard.perft(&tables, 3), 8902);
    // a1 rook on an empty board sees its file and rank
    assert_eq!(tables.rook_lookup(0, 0), 0x01010101010101FE);
}

#[test]
fn malformed_magic_records_are_refused() {
    let rook = SliderTable::find_magics(true).unwrap();
    let bishop = SliderTable::find_magics(false).unwrap();
    assert_eq!(
        AttackTables::from_magic_tables(&Vec::new(), &bishop).err(),
        Some(TableInitError::Malformed)
    );
    let mut shifted = rook.clone();
    shifted[3].square = 4;
    assert_eq!(
        AttackTables::from_magic_tables(&shifted, &bishop).err(),
        Some(TableInitError::Malformed)
    );
    let mut wrong_mask = rook.clone();
    wrong_mask[0].mask = 0;
    assert_eq!(
        AttackTables::from_magic_tables(&wrong_mask, &bishop).err(),
        Some(TableInitError::Malformed)
    );
}

#[test]
fn colliding_magic_is_refused() {
    let rook = SliderTable::find_magics(true).unwrap();
    let mut bishop = SliderTable::find_magics(false).unwrap();
    bishop[27].magic_number = 0;
    assert_eq!(
        AttackTables::from_magic_tables(&rook, &bishop).err(),
        Some(TableInitError::Collision)
    );
}

#[test]
fn engine_setup_and_play() {
    assert_eq!(
        Engine::from_fen("not a fen").err(),
        Some(EngineError::Fen(FenError::FieldCount))
    );
    let mut engine = Engine::new().unwrap();
    let mv = engine.play_uci("e2e4").unwrap();
    assert_eq!(mv.uci(), b"e2e4".to_vec());
    assert_eq!(engine.chessboard.ply_index, 1);
    assert!(engine.play_uci("e2e4").is_err());
    assert_eq!(engine.chessboard.ply_index, 1);
    let reply: Move = engine.best_move(1).unwrap();
    assert_eq!(engine.chessboard.ply_index, 1);
    assert!(engine.play_uci(&String::from_utf8(reply.uci()).unwrap()).is_ok());
}
