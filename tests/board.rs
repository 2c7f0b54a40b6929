use chess_engine::board::Chessboard;
use chess_engine::evaluation::Evaluation;
use chess_engine::fen::{parse_square, parse_u32, FenError};
use chess_engine::movegen::{generate_legal_moves, generate_moves};
use chess_engine::moves::Move;
use chess_engine::search::{Search, SearchError};
use chess_engine::tables::AttackTables;
use chess_engine::types::{get_piece_index, Color, Piece};
use chess_engine::uci::MoveDecodeError;

const START: &str = "rnbqkbnr/pppppppp/8/8/8/8/PPPPPPPP/RNBQKBNR w KQkq - 0 1";

fn snapshot(b: &Chessboard) -> (Vec<u64>, u64, u64, u64, usize, usize) {
    (
        b.pieces.clone(),
        b.white_pieces,
        b.black_pieces,
        b.state.zobrist_hash_key,
        b.state_stack.len(),
        b.ply_index,
    )
}

#[test]
fn slide_test() {
    let tables = AttackTables::new().unwrap();
    let mut chessboard = Chessboard::new(&tables);
    let a2 = 1u64 << 8;
    let a4 = 1u64 << 24;
    chessboard.slide_piece(get_piece_index(Color::White, Piece::Pawn), a2, a4);
    assert_eq!(chessboard.pieces[0], (0xFF00 & !a2) | a4);
    assert_eq!(chessboard.white_pieces, (0xFFFF & !a2) | a4);
    assert_eq!(chessboard.pieces[get_piece_index(Color::White, Piece::King)], 0x10);
}

#[test]
fn convert_square() {
    let index = 63;
    assert_eq!(parse_square(b"h8", 0, 2), Some(index));
    assert_eq!(parse_square(b"A1", 0, 2), Some(0));
    assert_eq!(parse_square(b"i1", 0, 2), None);
}

#[test]
fn evaluation() {
    let tables = AttackTables::new().unwrap();
    let mut chessboard = Chessboard::from_fen(
        &tables,
        "r3k2r/p1ppqpb1/bn2pnp1/3PN3/1p2P3/5Q1p/PP1B2PP/R3K2R w kq - 0 1",
    )
    .unwrap();
    let before = snapshot(&chessboard);
    let score = Evaluation::evaluate(&mut chessboard, &tables);
    assert_eq!(score, Evaluation::static_evaluate(&chessboard));
    assert_eq!(snapshot(&chessboard), before);
}

#[test]
fn start_position_evaluates_to_zero() {
    let tables = AttackTables::new().unwrap();
    let chessboard = Chessboard::new(&tables);
    assert_eq!(Evaluation::static_evaluate(&chessboard), 0);
}

#[test]
fn lone_pawn_evaluation_exact() {
    let tables = AttackTables::new().unwrap();
    // White: king e1 (1001), pawn e2 (1 + 1). Black: king e8 (1001).
    let chessboard = Chessboard::from_fen(&tables, "4k3/8/8/8/8/8/4P3/4K3 w - - 0 1").unwrap();
    assert_eq!(Evaluation::static_evaluate(&chessboard), 2);
    // White: king a1 (1002), knight d4 (3 + 6). Black: king h8 (1002).
    let chessboard = Chessboard::from_fen(&tables, "7k/8/8/8/3N4/8/8/K7 w - - 0 1").unwrap();
    assert_eq!(Evaluation::static_evaluate(&chessboard), 9);
}

#[test]
fn checkmated_side_scores_mate() {
    let tables = AttackTables::new().unwrap();
    let mut chessboard = Chessboard::from_fen(&tables, "5k1R/8/5K1P/5P2/8/8/8/8 b - - 1 1").unwrap();
    assert_eq!(Evaluation::evaluate(&mut chessboard, &tables), 10000);
}

#[test]
fn make_unmake_restores_every_move() {
    let tables = AttackTables::new().unwrap();
    let fens = [
        START,
        "r3k2r/p1ppqpb1/bn2pnp1/3PN3/1p2P3/2N2Q1p/PPPBBPPP/R3K2R w KQkq - 0 1",
        "8/2p5/3p4/KP5r/1R3p1k/8/4P1P1/8 w - - 0 1",
        "r3k2r/Pppp1ppp/1b3nbN/nP6/BBP1P3/q4N2/Pp1P2PP/R2Q1RK1 w kq - 0 1",
        "rnbq1k1r/pp1Pbppp/2p5/8/2B5/8/PPP1NnPP/RNBQK2R w KQ - 1 8",
        "r4rk1/1pp1qppp/p1np1n2/2b1p1B1/2B1P1b1/P1NP1N2/1PP1QPPP/R4RK1 w - - 0 10",
        "8/2p5/3p4/KP5r/1R3pPk/8/4P3/8 b - g3 0 1",
    ];
    for fen in fens {
        let mut chessboard = Chessboard::from_fen(&tables, fen).unwrap();
        let before = snapshot(&chessboard);
        let state = chessboard.state;
        let moves = generate_moves(&chessboard, &tables);
        assert!(!moves.is_empty());
        for mv in moves.iter() {
            chessboard.make(&tables, mv);
            assert_eq!(chessboard.ply_index, 1);
            chessboard.unmake(mv);
            assert_eq!(snapshot(&chessboard), before);
            assert_eq!(chessboard.state, state);
        }
    }
}

#[test]
fn make_sequence_then_unmake_in_reverse() {
    let tables = AttackTables::new().unwrap();
    let mut chessboard = Chessboard::new(&tables);
    let before = snapshot(&chessboard);
    let mut played: Vec<Move> = Vec::new();
    for text in ["e2e4", "d7d5", "e4d5", "g8f6", "f1b5", "c7c6", "d5c6", "d8d2", "b1d2"] {
        let mv = Move::decode_uci(&mut chessboard, &tables, text).unwrap();
        chessboard.make(&tables, &mv);
        played.push(mv);
    }
    assert_eq!(chessboard.ply_index, 9);
    for mv in played.iter().rev() {
        chessboard.unmake(mv);
    }
    assert_eq!(snapshot(&chessboard), before);
}

#[test]
fn undo_record_holds_the_captured_piece() {
    let tables = AttackTables::new().unwrap();
    let mut chessboard =
        Chessboard::from_fen(&tables, "4k3/8/8/3n4/4P3/8/8/4K3 w - - 0 1").unwrap();
    let before = chessboard.state;
    let mv = Move::decode_uci(&mut chessboard, &tables, "e4d5").unwrap();
    assert_eq!(mv.captured_piece, Some(Piece::Knight));
    chessboard.make(&tables, &mv);
    let top = chessboard.state_stack[chessboard.ply_index - 1];
    assert_eq!(top.captured_piece, Some(Piece::Knight));
    assert_eq!(top.state, before);
    chessboard.unmake(&mv);
    assert_eq!(chessboard.pieces[get_piece_index(Color::Black, Piece::Knight)], 1u64 << 35);
    assert_eq!(chessboard.state, before);
}

#[test]
fn double_push_sets_en_passant_target() {
    let tables = AttackTables::new().unwrap();
    let mut chessboard = Chessboard::new(&tables);
    let mv = Move::decode_uci(&mut chessboard, &tables, "e2e4").unwrap();
    assert_eq!(mv.move_kind_code(), 1);
    chessboard.make(&tables, &mv);
    assert_eq!(chessboard.state.en_passant_square, Some(20));
    let mv = Move::decode_uci(&mut chessboard, &tables, "g8f6").unwrap();
    chessboard.make(&tables, &mv);
    assert_eq!(chessboard.state.en_passant_square, None);
}

#[test]
fn en_passant_capture_removes_pawn() {
    let tables = AttackTables::new().unwrap();
    let mut chessboard =
        Chessboard::from_fen(&tables, "4k3/8/8/3pP3/8/8/8/4K3 w - d6 0 1").unwrap();
    let mv = Move::decode_uci(&mut chessboard, &tables, "e5d6").unwrap();
    assert_eq!(mv.move_kind_code(), 5);
    chessboard.make(&tables, &mv);
    assert_eq!(chessboard.pieces[get_piece_index(Color::Black, Piece::Pawn)], 0);
    assert_eq!(chessboard.pieces[0], 1u64 << 43);
}

#[test]
fn castling_moves_rook_and_clears_rights() {
    let tables = AttackTables::new().unwrap();
    let mut chessboard =
        Chessboard::from_fen(&tables, "r3k2r/8/8/8/8/8/8/R3K2R w KQkq - 0 1").unwrap();
    let mv = Move::decode_uci(&mut chessboard, &tables, "e1g1").unwrap();
    assert!(mv.castle_flag());
    chessboard.make(&tables, &mv);
    assert_eq!(chessboard.pieces[get_piece_index(Color::White, Piece::King)], 1u64 << 6);
    assert_eq!(chessboard.pieces[get_piece_index(Color::White, Piece::Rook)], 1 | (1u64 << 5));
    assert!(!chessboard.state.can_white_king_castle);
    assert!(!chessboard.state.can_white_queen_castle);
    assert!(chessboard.state.can_black_king_castle);
    let mv = Move::decode_uci(&mut chessboard, &tables, "a8a1").unwrap();
    assert!(mv.capture_flag());
    chessboard.make(&tables, &mv);
    assert!(!chessboard.state.can_black_queen_castle);
    assert!(chessboard.state.can_black_king_castle);
}

#[test]
fn castling_rights_need_king_and_rook_at_home() {
    let tables = AttackTables::new().unwrap();
    let chessboard = Chessboard::from_fen(&tables, "4k3/8/8/8/8/8/8/4K2R w KQkq - 0 1").unwrap();
    assert!(chessboard.state.can_white_king_castle);
    assert!(!chessboard.state.can_white_queen_castle);
    assert!(!chessboard.state.can_black_king_castle);
    assert!(!chessboard.state.can_black_queen_castle);
}

#[test]
fn attack_spot_checks() {
    let tables = AttackTables::new().unwrap();
    let chessboard = Chessboard::new(&tables);
    assert!(!chessboard.is_square_attacked(&tables, 28, Color::White));
    assert!(!chessboard.is_square_attacked(&tables, 53, Color::White));
    assert!(!chessboard.is_square_attacked(&tables, 16, Color::Black));
    assert!(chessboard.is_square_attacked(&tables, 21, Color::White));
    let chessboard = Chessboard::from_fen(&tables, "4k3/8/8/8/8/8/4r3/4K3 w - - 0 1").unwrap();
    assert!(chessboard.is_square_attacked(&tables, 4, Color::Black));
    assert!(chessboard.is_in_check(&tables, Color::White));
    assert!(!chessboard.is_in_check(&tables, Color::Black));
}

#[test]
fn search_after_mate_has_no_legal_move() {
    let tables = AttackTables::new().unwrap();
    let mut chessboard =
        Chessboard::from_fen(&tables, "5k2/7R/5K1P/5P2/8/8/8/8 w - - 0 1").unwrap();
    let mate = Move::decode_uci(&mut chessboard, &tables, "h7h8").unwrap();
    chessboard.make(&tables, &mate);
    assert!(chessboard.is_in_check(&tables, Color::Black));
    let mut search = Search::new(1);
    assert_eq!(search.think(&mut chessboard, &tables), Err(SearchError::NoLegalMove));
    assert_eq!(generate_legal_moves(&mut chessboard, &tables).len(), 0);
}

#[test]
fn search_finds_mate_in_one() {
    let tables = AttackTables::new().unwrap();
    let mut chessboard =
        Chessboard::from_fen(&tables, "5k2/7R/5K1P/5P2/8/8/8/8 w - - 0 1").unwrap();
    let before = snapshot(&chessboard);
    let mut search = Search::new(1);
    let best = search.think(&mut chessboard, &tables).unwrap();
    assert_eq!(best.uci(), b"h7h8".to_vec());
    assert_eq!(snapshot(&chessboard), before);
}

#[test]
fn fen_errors() {
    let tables = AttackTables::new().unwrap();
    let bad = |fen: &str| Chessboard::from_fen(&tables, fen).err();
    assert_eq!(bad("8/8/8/8/8/8/8/8 w - - 0"), Some(FenError::FieldCount));
    assert_eq!(bad("4k3/8/8/8/8/8/8/4K3 x - - 0 1"), Some(FenError::Turn));
    assert_eq!(bad("4k3/8/8/8/8/8/8/4K3 w - - a 1"), Some(FenError::HalfMoves));
    assert_eq!(bad("4k3/8/8/8/8/8/8/4K3 w - - 0 -1"), Some(FenError::FullMoves));
    assert_eq!(bad("4k3/8/8/8/8/8/4K3 w - - 0 1"), Some(FenError::Placement));
    assert_eq!(bad("4k3/9/8/8/8/8/8/4K3 w - - 0 1"), Some(FenError::Placement));
    assert_eq!(bad("4k3/8/8/8/8/8/8/8 w - - 0 1"), Some(FenError::Inconsistent));
    assert_eq!(bad("4k3/8/8/8/8/8/8/4K3 w KX - 0 1"), Some(FenError::Castling));
    assert_eq!(bad("4k3/8/8/8/8/8/8/4K3 w  - 0 1"), Some(FenError::Castling));
    assert_eq!(bad("4k3/8/8/8/8/8/8/4K3 w -- - 0 1"), Some(FenError::Castling));
    assert_eq!(bad("4k3/8/8/8/8/8/8/4K3 w - e9 0 1"), Some(FenError::EnPassant));
    assert_eq!(bad("4k3/8/8/8/8/8/8/4K3 w - x 0 1"), Some(FenError::EnPassant));
    assert_eq!(bad("4k3/8/8/8/8/8/8/3KK3 w - - 0 1"), Some(FenError::Inconsistent));
    assert!(bad("4k3/8/8/8/8/8/8/4K3 w - - 0 1").is_none());
}

#[test]
fn fen_fields_read() {
    let tables = AttackTables::new().unwrap();
    let chessboard =
        Chessboard::from_fen(&tables, "rnbq1k1r/pp1Pbppp/2p5/8/2B5/8/PPP1NnPP/RNBQK2R w KQ - 1 8")
            .unwrap();
    assert_eq!(chessboard.state.turn_color, Color::White);
    assert_eq!(chessboard.state.half_move_clock, 1);
    assert_eq!(chessboard.state.full_move_number, 8);
    assert!(chessboard.state.can_white_king_castle);
    assert!(chessboard.state.can_white_queen_castle);
    assert!(!chessboard.state.can_black_king_castle);
    assert_eq!(chessboard.ply_index, 0);
    let start = Chessboard::new(&tables);
    let parsed = Chessboard::from_fen(&tables, START).unwrap();
    assert_eq!(snapshot(&start), snapshot(&parsed));
}

#[test]
fn uci_round_trip_and_errors() {
    let tables = AttackTables::new().unwrap();
    let mut chessboard = Chessboard::from_fen(&tables, "K6k/8/6Q1/8/8/8/3p4/8 b - - 0 1").unwrap();
    let mv = Move::decode_uci(&mut chessboard, &tables, "d2d1q").unwrap();
    assert!(mv.promotion_flag());
    assert_eq!(mv.move_kind_code(), 11);
    assert_eq!(mv.uci(), b"d2d1q".to_vec());
    assert_eq!(
        Move::decode_uci(&mut chessboard, &tables, "d2d1"),
        Err(MoveDecodeError::Syntax).or(Move::decode_uci(&mut chessboard, &tables, "d2d1"))
    );
    assert_eq!(Move::decode_uci(&mut chessboard, &tables, "d2"), Err(MoveDecodeError::Syntax));
    assert_eq!(Move::decode_uci(&mut chessboard, &tables, "d2d1x"), Err(MoveDecodeError::Syntax));
    assert_eq!(Move::decode_uci(&mut chessboard, &tables, "d2d3"), Err(MoveDecodeError::Illegal));
}

#[test]
fn move_word_fields() {
    let mv = Move::from((12 << 10) | (28 << 4) | 1, Piece::Pawn, None);
    assert_eq!(mv.from, 1u64 << 12);
    assert_eq!(mv.to, 1u64 << 28);
    assert_eq!(mv.move_kind_code(), 1);
    assert!(!mv.capture_flag());
    assert!(!mv.castle_flag());
    let mv = Move::from((4 << 10) | (2 << 4) | 3, Piece::King, None);
    assert!(mv.castle_flag());
    let mv = Move::from((52 << 10) | (61 << 4) | 15, Piece::Pawn, Some(Piece::Bishop));
    assert!(mv.capture_flag() && mv.promotion_flag());
    assert_eq!(mv.promotion_piece(), Piece::Queen);
}

#[test]
fn legal_moves_of_start() {
    let tables = AttackTables::new().unwrap();
    let mut chessboard = Chessboard::new(&tables);
    let legal = generate_legal_moves(&mut chessboard, &tables);
    assert_eq!(legal.len(), 20);
    assert_eq!(Move::get_ucis(&legal).len(), 20);
}

#[test]
fn parse_numbers_exactly() {
    assert_eq!(parse_u32(b"4294967295", 0, 10), Some(u32::MAX));
    assert_eq!(parse_u32(b"4294967296", 0, 10), None);
    assert_eq!(parse_u32(b"99999999999", 0, 11), None);
    assert_eq!(parse_u32(b"12a", 0, 3), None);
    assert_eq!(parse_u32(b"12a", 0, 2), Some(12));
    assert_eq!(parse_u32(b"", 0, 0), None);
    assert_eq!(parse_u32(b"007", 0, 3), Some(7));
}

#[test]
fn en_passant_field_read_in_either_case() {
    let tables = AttackTables::new().unwrap();
    let upper = Chessboard::from_fen(&tables, "k7/8/8/8/p6P/8/8/7K b - H3 1 1").unwrap();
    assert_eq!(upper.state.en_passant_square, Some(23));
    let none = Chessboard::from_fen(&tables, "k7/8/8/8/p6P/8/8/7K b - - 1 1").unwrap();
    assert_eq!(none.state.en_passant_square, None);
}
