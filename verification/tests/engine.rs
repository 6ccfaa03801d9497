use std::time::Duration;
use std::time::Instant;

use chess_engine::board::Board;
use chess_engine::board::Color;
use chess_engine::board::Kind;
use chess_engine::board::Piece;
use chess_engine::cache::Cache;
use chess_engine::eval::evaluate;
use chess_engine::eval::evaluate_classic;
use chess_engine::eval::evaluate_advanced;
use chess_engine::eval::set_evaluator_type;
use chess_engine::eval::EvaluatorType;

fn empty_board() -> Board {
    Board {
        sq: vec![None; 64],
        side: Color::White,
        castle_wk: false,
        castle_wq: false,
        castle_bk: false,
        castle_bq: false,
        ep_square: None,
        halfmove_clock: 0,
        fullmove_number: 1,
    }
}

fn put(board: &mut Board, file: usize, rank: usize, kind: Kind, color: Color) {
    board.sq[rank * 8 + file] = Some(Piece { kind, color });
}

#[test]
fn start_position_serializes_canonically() {
    let board = Board::new();
    assert_eq!(
        board.serialize(),
        "RNBQKBNRPPPPPPPP................................pppppppprnbqkbnr|W|KQkq|-"
    );
}

#[test]
fn scenario_a_ruy_lopez_tokens() {
    let mut board = Board::new();
    for m in &["e4", "e5", "Nf3", "Nc6"] {
        board.parse_and_play_token(m).unwrap();
    }
    let mv = board.parse_san_and_find_move("Bb5").unwrap();
    assert_eq!(board.move_to_san(mv), "Bb5");
    board.parse_and_play_token("Bb5").unwrap();
    assert_eq!(board.side, Color::Black);
}

#[test]
fn scenario_b_ambiguous_knight_move() {
    let mut board = Board::new();
    for m in &["Nf3", "e6", "d4", "e5"] {
        board.parse_and_play_token(m).unwrap();
    }
    // Both the b1 and the f3 knight reach d2: the unqualified form fails.
    assert!(board.parse_san_and_find_move("Nd2").is_err());
    let mv = board.parse_san_and_find_move("Nbd2").unwrap();
    assert_eq!(mv.from, 1);
    assert_eq!(mv.to, 11);
    let mv2 = board.parse_san_and_find_move("Nfd2").unwrap();
    assert_eq!(mv2.from, 21);
    assert_eq!(mv2.to, 11);
}

#[test]
fn round_trip_legal_moves_from_start() {
    let board = Board::new();
    for mv in board.generate_legal_moves() {
        let san = board.move_to_san(mv);
        let copy = board.clone_board();
        let reparsed = copy.parse_san_and_find_move(&san).unwrap();
        assert_eq!(reparsed.from, mv.from);
        assert_eq!(reparsed.to, mv.to);
        assert_eq!(reparsed.promo, mv.promo);
    }
}

#[test]
fn round_trip_legal_moves_midgame() {
    let mut board = Board::new();
    for m in &["e4", "e5", "Nf3", "Nc6", "Bb5", "a6", "Ba4", "Nf6", "O-O", "Be7"] {
        board.parse_and_play_token(m).unwrap();
    }
    for mv in board.generate_legal_moves() {
        if mv.is_castle_kingside || mv.is_castle_queenside {
            continue; // castle literals parse through the token entry point
        }
        let san = board.move_to_san(mv);
        let copy = board.clone_board();
        let reparsed = copy.parse_san_and_find_move(&san).unwrap();
        assert_eq!(reparsed.from, mv.from);
        assert_eq!(reparsed.to, mv.to);
        assert_eq!(reparsed.promo, mv.promo);
    }
}

#[test]
fn legal_moves_never_leave_king_attacked() {
    let mut board = Board::new();
    // A check from b5: every legal reply must address it.
    for m in &["e4", "e5", "Nf3", "d6", "Bb5"] {
        board.parse_and_play_token(m).unwrap();
    }
    let moves = board.generate_legal_moves();
    assert!(!moves.is_empty());
    for mv in moves {
        let mut copy = board.clone_board();
        copy.make_move(mv);
        let king = copy.find_king(Color::Black).unwrap();
        assert!(!copy.is_square_attacked(king, Color::White));
    }
    // The pinned-in-check position still rejects a move that ignores the check.
    assert!(!board
        .generate_legal_moves()
        .iter()
        .any(|m| m.from == 6 * 8 + 0 && m.to == 5 * 8 + 0));
}

#[test]
fn evaluation_scores_start_as_zero() {
    let board = Board::new();
    assert_eq!(evaluate_classic(&board), 0);
    assert_eq!(evaluate_advanced(&board), 0);
    assert_eq!(evaluate(&board, EvaluatorType::Classic), 0);
    assert_eq!(evaluate(&board, EvaluatorType::Advanced), 0);
}

#[test]
fn evaluation_counts_missing_queen() {
    let mut board = Board::new();
    board.sq[59] = None; // black queen off d8
    assert_eq!(evaluate_classic(&board), 9);
    // 900 centipawns of material less the 5-centipawn home-square table
    // penalty the queen no longer pays.
    assert_eq!(evaluate_advanced(&board), 895);
}

#[test]
fn evaluator_type_is_threaded_explicitly() {
    let mut mode = EvaluatorType::Advanced;
    set_evaluator_type(&mut mode, EvaluatorType::Classic);
    assert_eq!(mode, EvaluatorType::Classic);
    let board = Board::new();
    assert_eq!(evaluate(&board, mode), 0);
}

#[test]
fn checkmate_and_stalemate_from_play() {
    let mut board = Board::new();
    assert!(!board.is_checkmate());
    assert!(!board.is_stalemate());
    assert!(!board.is_game_over());
    for m in &["f3", "e5", "g4", "Qh4"] {
        board.parse_and_play_token(m).unwrap();
    }
    assert!(board.is_checkmate());
    assert!(!board.is_stalemate());
    assert!(board.is_game_over());
    assert!(board.generate_legal_moves().is_empty());
    assert_eq!(
        board.find_best_move(Duration::from_millis(50), EvaluatorType::Classic),
        None
    );
}

#[test]
fn stalemate_is_recognized() {
    // Black king a8, boxed in by the white queen on b6; white king c6.
    let mut board = empty_board();
    put(&mut board, 0, 7, Kind::King, Color::Black);
    put(&mut board, 1, 5, Kind::Queen, Color::White);
    put(&mut board, 2, 5, Kind::King, Color::White);
    board.side = Color::Black;
    assert!(board.is_stalemate());
    assert!(!board.is_checkmate());
    assert!(board.is_game_over());
}

#[test]
fn en_passant_target_follows_double_pushes() {
    let mut board = Board::new();
    assert_eq!(board.ep_square, None);
    board.parse_and_play_token("e4").unwrap();
    assert_eq!(board.ep_square, Some(20)); // e3
    board.parse_and_play_token("e5").unwrap();
    assert_eq!(board.ep_square, Some(44)); // e6
    board.parse_and_play_token("Nf3").unwrap();
    assert_eq!(board.ep_square, None);
    board.parse_and_play_token("Nc6").unwrap();
    assert_eq!(board.ep_square, None);
}

#[test]
fn en_passant_capture_is_generated_and_applied() {
    let mut board = Board::new();
    for m in &["e4", "a6", "e5", "d5"] {
        board.parse_and_play_token(m).unwrap();
    }
    // White pawn e5 may capture d6 en passant.
    let moves = board.generate_legal_moves();
    let ep = moves
        .iter()
        .find(|m| m.is_en_passant)
        .expect("en passant move generated");
    assert_eq!(ep.from, 4 * 8 + 4); // e5
    assert_eq!(ep.to, 5 * 8 + 3); // d6
    board.parse_and_play_token("exd6").unwrap();
    assert_eq!(board.sq[4 * 8 + 3], None); // the d5 pawn is gone
}

#[test]
fn castling_moves_king_and_rook() {
    let mut board = Board::new();
    for m in &["e4", "e5", "Nf3", "Nc6", "Bc4", "Bc5", "O-O"] {
        board.parse_and_play_token(m).unwrap();
    }
    assert_eq!(
        board.sq[6],
        Some(Piece { kind: Kind::King, color: Color::White })
    );
    assert_eq!(
        board.sq[5],
        Some(Piece { kind: Kind::Rook, color: Color::White })
    );
    assert_eq!(board.sq[4], None);
    assert_eq!(board.sq[7], None);
    assert!(!board.castle_wk);
    assert!(!board.castle_wq);
    assert!(board.castle_bk);
}

#[test]
fn promotion_parses_in_both_notations() {
    // White pawn on b7 promotes; kings far away.
    let mut board = empty_board();
    put(&mut board, 1, 6, Kind::Pawn, Color::White);
    put(&mut board, 4, 0, Kind::King, Color::White);
    put(&mut board, 4, 5, Kind::King, Color::Black);
    let mv = board.parse_san_and_find_move("b8=Q").unwrap();
    assert_eq!(mv.promo, Some(Kind::Queen));
    let uci = board.try_parse_uci_like("b7b8n").unwrap().unwrap();
    assert_eq!(mv.from, uci.from);
    assert_eq!(mv.to, uci.to);
    assert_eq!(uci.promo, Some(Kind::Knight));
    board.parse_and_play_token("b7b8q").unwrap();
    assert_eq!(
        board.sq[7 * 8 + 1],
        Some(Piece { kind: Kind::Queen, color: Color::White })
    );
}

#[test]
fn parse_rejects_malformed_tokens() {
    let mut board = Board::new();
    assert!(board.parse_and_play_token("Nd9").is_err()); // bad square
    assert!(board.parse_and_play_token("N").is_err()); // truncated SAN
    assert!(board.parse_and_play_token("e8=").is_err()); // truncated promotion
    assert!(board.parse_and_play_token("Qd4").is_err()); // no reachable source
    // Decorative tokens are skipped without touching the position.
    assert!(board.parse_and_play_token("12.").is_ok());
    assert!(board.parse_and_play_token("1-0").is_ok());
    assert!(board.parse_and_play_token("").is_ok());
    assert_eq!(board.serialize(), Board::new().serialize());
}

#[test]
fn scenario_c_back_rank_mate_found() {
    // White rook a1, white king e1; black king g8 behind its pawn shield.
    let mut board = empty_board();
    put(&mut board, 0, 0, Kind::Rook, Color::White);
    put(&mut board, 4, 0, Kind::King, Color::White);
    put(&mut board, 6, 7, Kind::King, Color::Black);
    put(&mut board, 5, 6, Kind::Pawn, Color::Black);
    put(&mut board, 6, 6, Kind::Pawn, Color::Black);
    put(&mut board, 7, 6, Kind::Pawn, Color::Black);

    let start = Instant::now();
    let timeout = Duration::from_millis(2000);
    let best = board
        .search_at_depth(1, &start, &timeout, EvaluatorType::Classic)
        .expect("depth-1 search completes");
    assert_eq!(best.from, 0); // a1
    assert_eq!(best.to, 56); // a8
    let mut after = board.clone_board();
    after.make_move(best);
    assert!(after.is_checkmate());

    let deep = board
        .find_best_move(Duration::from_millis(200), EvaluatorType::Classic)
        .expect("a legal move exists");
    let mut after2 = board.clone_board();
    after2.make_move(deep);
    assert!(after2.is_checkmate());
}

#[test]
fn scenario_d_expired_timeout_never_hangs() {
    let board = Board::new();
    // With an already-expired deadline the search still returns a legal move.
    let res = board.find_best_move(Duration::from_millis(0), EvaluatorType::Classic);
    let mv = res.expect("start position has legal moves");
    let mut after = board.clone_board();
    after.make_move(mv);
    assert_eq!(after.side, Color::Black);
}

#[test]
fn cache_key_is_a_sha256_hex_digest() {
    let cache = Cache::new();
    let key = cache.generate_key("X", 5, None, EvaluatorType::Classic);
    assert_eq!(
        key,
        "1a417fcb60b194677a3d7b329eaf0538939fe93271deb3c3b483dd894fdcb3a8"
    );
    let other = cache.generate_key("X", 5, Some(2), EvaluatorType::Classic);
    assert_ne!(key, other);
    assert_eq!(cache.get_path(&key), format!("/tmp/chess.cache/{}.json", key));
}

#[test]
fn attack_oracle_matches_geometry() {
    let board = Board::new();
    // The knight on g1 attacks f3; the rook on a1 is blocked by its pawn.
    assert!(board.can_attack(6, 2 * 8 + 5));
    assert!(!board.can_attack(0, 3 * 8 + 0));
    assert!(!board.is_square_attacked(3 * 8 + 0, Color::White));
    assert!(board.is_square_attacked(2 * 8 + 5, Color::White));
}
