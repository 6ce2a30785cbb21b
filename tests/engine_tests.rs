use zeno::bits::count_set_bit;
use zeno::evaluation::{evaluate, evaluate_move, get_pst_value, simple_evaluation};
use zeno::perft::pertf_divide;
use zeno::lookup_tables::{
    generate_bishop_occupancy_combos, generate_rook_occupancy_combos,
    generate_black_pawn_attacks, generate_king_mask, generate_knight_mask,
    generate_white_pawn_attacks, slider_attacks_exec,
};
use zeno::moves_generator::{generate_mask_moves, generate_move_mask_for_bishop, generate_move_mask_for_rook, generate_pseudo_legal_moves};
use zeno::position::Position;
use zeno::search::{alpha_beta, best_move, best_move_at_depth, INFINITY, MATE_SCORE};
use zeno::uci::{apply_uci_moves, move_notation, uci_make_move, uci_move};
use zeno::utils::{assemble_draws, sparse_candidate, Move, MoveType, Piece, PieceColor, PieceType};

const START: &str = "rnbqkbnr/pppppppp/8/8/8/8/PPPPPPPP/RNBQKBNR w KQkq - 0 1";
const KIWIPETE: &str = "r3k2r/p1ppqpb1/bn2pnp1/3PN3/1p2P3/2N2Q1p/PPPBBPPP/R3K2R w KQkq - 0 1";

fn legal_moves(p: &mut Position) -> Vec<Move> {
    let turn = p.get_turn();
    let mut out = Vec::new();
    for m in generate_pseudo_legal_moves(p, &turn) {
        p.make_move(&m);
        if !p.is_check(&turn) {
            out.push(m);
        }
        p.undo_last_move();
    }
    out
}

fn boards(p: &Position) -> [u64; 8] {
    [
        p.get_white_board(),
        p.get_black_board(),
        p.get_pawns_board(),
        p.get_knight_board(),
        p.get_bishops_board(),
        p.get_rook_board(),
        p.get_queens_board(),
        p.get_kings_board(),
    ]
}

#[test]
fn fen_start_position_fields() {
    let p = Position::from_fen(START);
    assert_eq!(p.get_white_board(), 0xFFFF);
    assert_eq!(p.get_black_board(), 0xFFFF_0000_0000_0000);
    assert_eq!(p.get_pawns_board(), 0x00FF_0000_0000_FF00);
    assert_eq!(p.get_kings_board(), (1u64 << 4) | (1u64 << 60));
    assert_eq!(p.get_turn(), PieceColor::White);
    assert_eq!(p.get_castling_rights(), 15);
    assert_eq!(p.get_en_passant(), None);
    assert_eq!(p.history_len(), 0);
}

#[test]
fn fen_rejects_wrong_field_count() {
    assert!(Position::try_from_fen("8/8/8/8/8/8/8/8 w - - 0").is_none());
    assert!(Position::try_from_fen("8/8/8/8/8/8/8/8 w - - 0 1 extra").is_none());
}

#[test]
fn fen_rejects_unknown_piece() {
    assert!(Position::try_from_fen("rnbqkbnr/ppppxppp/8/8/8/8/PPPPPPPP/RNBQKBNR w KQkq - 0 1").is_none());
}

#[test]
fn fen_rejects_bad_rank_length() {
    assert!(Position::try_from_fen("rnbqkbnr/ppppppp/8/8/8/8/PPPPPPPP/RNBQKBNR w KQkq - 0 1").is_none());
    assert!(Position::try_from_fen("rnbqkbnr/pppppppp/9/8/8/8/PPPPPPPP/RNBQKBNR w KQkq - 0 1").is_none());
    assert!(Position::try_from_fen("rnbqkbnr/pppppppp/8/8/8/8/PPPPPPPP w KQkq - 0 1").is_none());
}

#[test]
fn fen_rejects_bad_side_and_counters() {
    assert!(Position::try_from_fen("8/8/8/8/8/8/8/8 x - - 0 1").is_none());
    assert!(Position::try_from_fen("8/8/8/8/8/8/8/8 w - - a 1").is_none());
    assert!(Position::try_from_fen("8/8/8/8/8/8/8/8 w - - 0 70000").is_none());
    assert!(Position::try_from_fen("8/8/8/8/8/8/8/8 w - z9 0 1").is_none());
}

#[test]
fn fen_drops_unsupported_castling_rights() {
    let p = Position::from_fen("4k3/8/8/8/8/8/8/4K3 w KQkq - 0 1");
    assert_eq!(p.get_castling_rights(), 0);
    let q = Position::from_fen("r3k3/8/8/8/8/8/8/4K2R w KQkq - 0 1");
    assert_eq!(q.get_castling_rights(), 1 | 8);
}

#[test]
fn fen_keeps_en_passant_target() {
    let p = Position::from_fen("rnbqkbnr/ppp1pppp/8/3pP3/8/8/PPPP1PPP/RNBQKBNR w KQkq d6 0 3");
    assert_eq!(p.get_en_passant(), Some(43));
    let q = Position::from_fen("rnbqkbnr/pppppppp/8/8/8/8/PPPPPPPP/RNBQKBNR w KQkq d6 0 1");
    assert_eq!(q.get_en_passant(), None);
}

#[test]
fn colour_planes_are_disjoint_and_cover_types() {
    for fen in [START, KIWIPETE] {
        let p = Position::from_fen(fen);
        let b = boards(&p);
        assert_eq!(b[0] & b[1], 0);
        assert_eq!(b[2] | b[3] | b[4] | b[5] | b[6] | b[7], b[0] | b[1]);
        assert_eq!(count_set_bit(b[7] & b[0]), 1);
        assert_eq!(count_set_bit(b[7] & b[1]), 1);
    }
}

#[test]
fn count_set_bit_values() {
    assert_eq!(count_set_bit(0), 0);
    assert_eq!(count_set_bit(0xFF), 8);
    assert_eq!(count_set_bit(u64::MAX), 64);
    assert_eq!(count_set_bit(0x8000_0000_0000_0001), 2);
}

#[test]
fn leaper_tables() {
    let knight = generate_knight_mask();
    assert_eq!(knight[0], (1u64 << 10) | (1u64 << 17));
    assert_eq!(count_set_bit(knight[27]), 8);
    let king = generate_king_mask();
    assert_eq!(king[0], (1u64 << 1) | (1u64 << 8) | (1u64 << 9));
    assert_eq!(count_set_bit(king[27]), 8);
    let white = generate_white_pawn_attacks();
    let black = generate_black_pawn_attacks();
    assert_eq!(white[8], 1u64 << 17);
    assert_eq!(white[12], (1u64 << 19) | (1u64 << 21));
    assert_eq!(white[63], 0);
    assert_eq!(black[15], 1u64 << 6);
}

#[test]
fn magic_lookup_matches_ray_tracing() {
    let p = Position::from_fen(START);
    let mut x: u64 = 0x9E37_79B9_7F4A_7C15;
    for _ in 0..2000 {
        x ^= x << 13;
        x ^= x >> 7;
        x ^= x << 17;
        let occ = x & x.rotate_left(23);
        for sq in 0..64u64 {
            assert_eq!(
                generate_move_mask_for_rook(&p, &occ, &(sq as i8)),
                slider_attacks_exec(true, sq, occ)
            );
            assert_eq!(
                generate_move_mask_for_bishop(&p, &occ, &(sq as i8)),
                slider_attacks_exec(false, sq, occ)
            );
        }
    }
    assert_eq!(slider_attacks_exec(true, 0, 0), 0x0101_0101_0101_01FE);
    assert_eq!(slider_attacks_exec(false, 0, 1u64 << 18), (1u64 << 9) | (1u64 << 18));
}

#[test]
fn make_then_undo_restores_every_move() {
    for fen in [START, KIWIPETE] {
        let mut p = Position::from_fen(fen);
        let before = (boards(&p), p.get_turn(), p.get_castling_rights(), p.get_en_passant(), p.history_len());
        let turn = p.get_turn();
        for m in generate_pseudo_legal_moves(&p, &turn) {
            p.make_move(&m);
            assert_eq!(p.history_len(), 1);
            assert!(p.undo_last_move());
            let after = (boards(&p), p.get_turn(), p.get_castling_rights(), p.get_en_passant(), p.history_len());
            assert_eq!(before, after);
        }
    }
}

#[test]
fn undo_with_empty_history_changes_nothing() {
    let mut p = Position::from_fen(START);
    let before = boards(&p);
    assert!(!p.undo_last_move());
    assert_eq!(boards(&p), before);
}

#[test]
fn legal_moves_never_leave_the_king_attacked() {
    let mut p = Position::from_fen(KIWIPETE);
    let turn = p.get_turn();
    let legal = legal_moves(&mut p);
    assert_eq!(legal.len(), 48);
    for m in legal {
        p.make_move(&m);
        assert!(!p.is_check(&turn));
        p.undo_last_move();
    }
}

#[test]
fn check_matches_attackers_of_the_king() {
    let p = Position::from_fen("4k3/8/8/8/8/8/8/4R2K b - - 0 1");
    assert!(p.is_check(&PieceColor::Black));
    assert!(p.is_square_attack_by(&60, &PieceColor::White));
    assert_eq!(p.get_king_coord(&PieceColor::Black), 60);
    let q = Position::from_fen("4k3/8/8/8/4P3/8/8/4R2K b - - 0 1");
    assert!(!q.is_check(&PieceColor::Black));
}

#[test]
fn push_to_last_rank_makes_four_promotions() {
    let p = Position::from_fen("8/P7/8/8/8/8/8/k6K w - - 0 1");
    let moves = generate_pseudo_legal_moves(&p, &PieceColor::White);
    let promos: Vec<MoveType> = moves
        .iter()
        .filter(|m| m.source == 48 && m.destination == 56)
        .map(|m| m.move_type)
        .collect();
    assert_eq!(
        promos,
        vec![MoveType::PawnToKnight, MoveType::PawnToBishop, MoveType::PawnToRook, MoveType::PawnToQueen]
    );
}

#[test]
fn en_passant_is_legal_unless_it_exposes_the_king() {
    let mut free = Position::from_fen("8/8/8/KPp5/8/8/8/7k w - c6 0 1");
    let ep = |m: &Move| m.move_type == MoveType::EnPassant && m.source == 33 && m.destination == 42;
    assert!(legal_moves(&mut free).iter().any(ep));
    let mut pinned = Position::from_fen("8/8/8/KPp4r/8/8/8/7k w - c6 0 1");
    let turn = pinned.get_turn();
    assert!(generate_pseudo_legal_moves(&pinned, &turn).iter().any(ep));
    assert!(!legal_moves(&mut pinned).iter().any(ep));
}

#[test]
fn en_passant_capture_removes_the_pawn() {
    let mut p = Position::from_fen("8/8/8/KPp5/8/8/8/7k w - c6 0 1");
    assert!(apply_uci_moves("b5c6", &mut p));
    assert_eq!(p.get_pawns_board(), 1u64 << 42);
    assert_eq!(p.get_black_board(), 1u64 << 7);
}

#[test]
fn castling_through_into_and_out_of_check() {
    let castles = |fen: &str| {
        let mut p = Position::from_fen(fen);
        let legal = legal_moves(&mut p);
        (
            legal.iter().any(|m| m.move_type == MoveType::ShortCastle),
            legal.iter().any(|m| m.move_type == MoveType::LongCastle),
        )
    };
    assert_eq!(castles("4k3/8/8/8/8/8/8/R3K2R w KQ - 0 1"), (true, true));
    assert_eq!(castles("4kr2/8/8/8/8/8/8/R3K2R w KQ - 0 1"), (false, true));
    assert_eq!(castles("4k1r1/8/8/8/8/8/8/R3K2R w KQ - 0 1"), (false, true));
    assert_eq!(castles("2r1k3/8/8/8/8/8/8/R3K2R w KQ - 0 1"), (true, false));
    assert_eq!(castles("4r1k1/8/8/8/8/8/8/R3K2R w KQ - 0 1"), (false, false));
}

#[test]
fn castling_moves_the_rook_and_revokes_rights() {
    let mut p = Position::from_fen(KIWIPETE);
    assert!(apply_uci_moves("e1g1", &mut p));
    assert_eq!(p.get_piece_on_square(&6), Piece { color: PieceColor::White, piece_type: PieceType::King });
    assert_eq!(p.get_piece_on_square(&5), Piece { color: PieceColor::White, piece_type: PieceType::Rook });
    assert_eq!(p.get_castling_rights(), 4 | 8);
}

#[test]
fn capturing_a_rook_at_home_revokes_its_right() {
    let mut p = Position::from_fen("r3k2r/8/8/8/8/8/8/R3K2R w KQkq - 0 1");
    assert!(apply_uci_moves("a1a8", &mut p));
    assert_eq!(p.get_castling_rights(), 1 | 4);
}

#[test]
fn checkmate_and_stalemate() {
    let mut mate = Position::from_fen("k7/1Q6/1K6/8/8/8/8/8 b - - 0 1");
    assert!(legal_moves(&mut mate).is_empty());
    assert!(mate.is_check(&PieceColor::Black));
    assert_eq!(alpha_beta(&mut mate, 1, -INFINITY, INFINITY), MATE_SCORE);
    let mut stale = Position::from_fen("k7/8/1Q6/8/8/8/8/7K b - - 0 1");
    assert!(legal_moves(&mut stale).is_empty());
    assert!(!stale.is_check(&PieceColor::Black));
    assert_eq!(alpha_beta(&mut stale, 1, -INFINITY, INFINITY), 0);
    assert_eq!(best_move_at_depth(&mut stale, 1), None);
}

#[test]
fn mate_in_one_is_found() {
    let mut p = Position::from_fen("k7/8/1K6/8/8/8/8/7Q w - - 0 1");
    assert_eq!(alpha_beta(&mut p, 2, -INFINITY, INFINITY), MATE_SCORE);
    let m = best_move_at_depth(&mut p, 2).unwrap();
    p.make_move(&m);
    assert!(p.is_check(&PieceColor::Black));
    assert!(legal_moves(&mut p).is_empty());
    let mut q = Position::from_fen("7q/8/8/8/8/1k6/8/K7 b - - 0 1");
    assert_eq!(alpha_beta(&mut q, 2, -INFINITY, INFINITY), -MATE_SCORE);
}

#[test]
fn depth_zero_search_is_the_evaluation() {
    for fen in [START, KIWIPETE, "4k3/8/8/8/8/8/8/4KQ2 w - - 0 1"] {
        let mut p = Position::from_fen(fen);
        let e = evaluate(&p);
        assert_eq!(alpha_beta(&mut p, 0, -INFINITY, INFINITY), e);
    }
}

#[test]
fn best_move_is_deterministic() {
    let mut p = Position::from_fen(KIWIPETE);
    let mut q = Position::from_fen(KIWIPETE);
    let a = best_move_at_depth(&mut p, 2);
    let b = best_move_at_depth(&mut q, 2);
    assert!(a.is_some());
    assert_eq!(a, b);
    assert_eq!(best_move_at_depth(&mut p, 2), a);
}

#[test]
fn best_move_default_depth_plays_a_legal_move() {
    let mut p = Position::from_fen("4k3/8/8/8/8/8/4q3/4K3 w - - 0 1");
    let m = best_move(&mut p).unwrap();
    assert_eq!((m.source, m.destination), (4, 12));
}

#[test]
fn evaluation_values() {
    assert_eq!(evaluate(&Position::from_fen(START)), 0);
    assert_eq!(evaluate(&Position::from_fen("4k3/8/8/8/8/8/8/4KQ2 w - - 0 1")), 890);
    assert_eq!(simple_evaluation(&Position::from_fen(START)), 0);
    assert_eq!(simple_evaluation(&Position::from_fen("4k3/8/8/8/8/8/8/4KQ2 w - - 0 1")), 900);
    let wp = Piece { color: PieceColor::White, piece_type: PieceType::Pawn };
    let bp = Piece { color: PieceColor::Black, piece_type: PieceType::Pawn };
    assert_eq!(get_pst_value(&wp, &12), -20);
    assert_eq!(get_pst_value(&bp, &52), 20);
    assert_eq!(get_pst_value(&wp, &48), 50);
    let p = Position::from_fen(START);
    assert_eq!(evaluate_move(&p, &12, &28), -60);
    assert_eq!(evaluate_move(&p, &3, &59), -90 + 90);
}

#[test]
fn uci_notation_is_matched_against_generated_moves() {
    let p = Position::from_fen(START);
    let m = uci_move("e2e4", &p).unwrap();
    assert_eq!((m.source, m.destination, m.move_type), (12, 28, MoveType::Normal));
    assert_eq!(uci_move("e2e5", &p), None);
    assert_eq!(uci_move("e2e9", &p), None);
    assert_eq!(uci_move("e2e4x", &p), None);
    assert_eq!(uci_move("e2", &p), None);
    let k = Position::from_fen(KIWIPETE);
    assert_eq!(uci_move("e1g1", &k).unwrap().move_type, MoveType::ShortCastle);
    assert_eq!(uci_move("e1c1", &k).unwrap().move_type, MoveType::LongCastle);
    let promo = Position::from_fen("8/P7/8/8/8/8/8/k6K w - - 0 1");
    assert_eq!(uci_move("a7a8q", &promo).unwrap().move_type, MoveType::PawnToQueen);
    assert_eq!(uci_move("a7a8n", &promo).unwrap().move_type, MoveType::PawnToKnight);
    assert_eq!(uci_move("a7a8", &promo), None);
}

#[test]
fn uci_make_move_plays_until_an_illegal_move() {
    let mut p = Position::from_fen(START);
    assert!(uci_make_move("move e2e4 e7e5 g1f3", &mut p));
    assert_eq!(p.history_len(), 3);
    assert_eq!(p.get_turn(), PieceColor::Black);
    let mut q = Position::from_fen(START);
    assert!(!uci_make_move("move e2e4 e2e4", &mut q));
    assert_eq!(q.history_len(), 1);
    assert_eq!(q.get_en_passant(), Some(20));
}

#[test]
fn move_notation_text() {
    let m = Move { source: 12, destination: 28, move_type: MoveType::Normal, move_score: 0 };
    assert_eq!(move_notation(&m), b"e2e4".to_vec());
    let q = Move { source: 52, destination: 60, move_type: MoveType::PawnToQueen, move_score: 0 };
    assert_eq!(move_notation(&q), b"e7e8q".to_vec());
}

#[test]
fn queries_on_the_start_position() {
    let p = Position::from_fen(START);
    assert_eq!(p.get_available_piece_coords(&PieceColor::White), (0..16).collect::<Vec<i8>>());
    assert_eq!(p.get_king_coord(&PieceColor::White), 4);
    assert_eq!(p.get_king_coord(&PieceColor::Black), 60);
    assert_eq!(p.get_board(), 0xFFFF_0000_0000_FFFF);
    assert!(!p.can_short_castle(&PieceColor::White));
    let k = Position::from_fen(KIWIPETE);
    assert!(k.can_short_castle(&PieceColor::White));
    assert!(k.can_long_castle(&PieceColor::Black));
    let e2e4 = Move { source: 12, destination: 28, move_type: MoveType::Normal, move_score: 7 };
    assert!(p.is_legal_move(&e2e4));
    let e2e5 = Move { source: 12, destination: 36, move_type: MoveType::Normal, move_score: 0 };
    assert!(!p.is_legal_move(&e2e5));
    let knight = p.get_piece_on_square(&6);
    assert_eq!(generate_mask_moves(&p, &6, &knight), (1u64 << 21) | (1u64 << 23));
    assert_eq!(p.piece_to_unicode(&knight), '\u{2658}');
}

#[test]
fn load_fen_keeps_position_on_error() {
    let mut p = Position::from_fen(START);
    assert!(!p.load_fen("not a fen"));
    assert_eq!(p.get_white_board(), 0xFFFF);
    assert!(p.load_fen(KIWIPETE));
    assert_eq!(p.get_castling_rights(), 15);
}

#[test]
fn divide_splits_perft_by_root_move() {
    let mut p = Position::from_fen(START);
    let parts = pertf_divide(2, &mut p);
    assert_eq!(parts.len(), 20);
    assert!(parts.iter().all(|(_, n)| *n == 20));
    let mut k = Position::from_fen(KIWIPETE);
    let total: u64 = pertf_divide(2, &mut k).iter().map(|(_, n)| *n).sum();
    assert_eq!(total, 2039);
    assert_eq!(k.history_len(), 0);
}

#[test]
fn occupancy_combinations_cover_the_blocker_mask() {
    let rook = generate_rook_occupancy_combos(&0);
    assert_eq!(rook.len(), 4096);
    assert!(rook.iter().all(|(occ, att)| *att == slider_attacks_exec(true, 0, *occ)));
    let bishop = generate_bishop_occupancy_combos(&27);
    assert_eq!(bishop.len(), 512);
    let corner = generate_bishop_occupancy_combos(&0);
    assert_eq!(corner.len(), 64);
}

#[test]
fn one_king_per_side_along_a_game() {
    let mut p = Position::from_fen(KIWIPETE);
    for ply in 0..60 {
        let legal = legal_moves(&mut p);
        if legal.is_empty() {
            break;
        }
        let m = legal[(ply * 7) % legal.len()];
        let mover = p.get_turn();
        p.make_move(&m);
        assert!(!p.is_check(&mover));
        let b = boards(&p);
        assert_eq!(count_set_bit(b[7] & b[0]), 1);
        assert_eq!(count_set_bit(b[7] & b[1]), 1);
        assert_eq!(b[0] & b[1], 0);
        assert_eq!(b[2] | b[3] | b[4] | b[5] | b[6] | b[7], b[0] | b[1]);
    }
}

#[test]
fn checked_make_rejects_illegal_requests() {
    let mut p = Position::from_fen(START);
    let before = boards(&p);
    let bad = Move { source: 12, destination: 36, move_type: MoveType::Normal, move_score: 0 };
    assert!(!p.make_move_checked(&bad));
    assert_eq!(boards(&p), before);
    assert_eq!(p.history_len(), 0);
    let wrong_side = Move { source: 52, destination: 36, move_type: MoveType::Normal, move_score: 0 };
    assert!(!p.make_move_checked(&wrong_side));
    let good = Move { source: 12, destination: 28, move_type: MoveType::Normal, move_score: 0 };
    assert!(p.make_move_checked(&good));
    assert_eq!(p.history_len(), 1);
    assert_eq!(p.get_turn(), PieceColor::Black);
}

#[test]
fn random_draw_arithmetic() {
    assert_eq!(assemble_draws(0x1_2345, 0xFFFF_0001, 0xABCD, 0x9999_0002), 0x0002_ABCD_0001_2345);
    assert_eq!(sparse_candidate(0b1110, 0b0111, 0b0110), 0b0110);
}

#[test]
fn occupancy_combinations_increase() {
    let rook = generate_rook_occupancy_combos(&27);
    assert_eq!(rook.len(), 1024);
    assert!(rook.windows(2).all(|w| w[0].0 < w[1].0));
}

#[test]
fn counters_survive_search_and_perft() {
    let mut p = Position::from_fen("r3k2r/p1ppqpb1/bn2pnp1/3PN3/1p2P3/2N2Q1p/PPPBBPPP/R3K2R w KQkq - 7 31");
    assert_eq!(zeno::perft::perft(2, &mut p), 2039);
    let _ = best_move_at_depth(&mut p, 2);
    assert_eq!((p.halfmove_clock, p.number_of_move), (7, 31));
}
