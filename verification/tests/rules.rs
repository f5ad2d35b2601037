//! The rules of the game: positions, moves, hashing, exchanges.
use half2k::bitboard::{count_ones, drop_bit, holds, lowest, put};
use half2k::board::{position_key, Board};
use half2k::movegen::{generate_legal, generate_legal_caps};
use half2k::moves::{letter_of, Move, MoveFlag};
use half2k::nnue::Evaluator;
use half2k::perft::perft;
use half2k::position::{is_attacked, occupied, total, Position};
use half2k::see::see_ge;
use half2k::types::{file_of, rank_of, Color, PieceType};
use half2k::uci::find_move;

fn fields(s: &str) -> Vec<String> {
    s.split_whitespace().map(|w| w.to_string()).collect()
}

fn position(s: &str) -> Position {
    match Position::from_fen(&fields(s)) {
        Some(p) => p,
        None => panic!("unreadable position: {}", s),
    }
}

fn text(m: &Move) -> String {
    m.to_uci().iter().map(|b| *b as char).collect()
}

fn mv(p: &Position, word: &str) -> Move {
    match find_move(p, word) {
        Some(m) => m,
        None => panic!("not legal: {}", word),
    }
}

fn leaves(fen: &str, depth: u32) -> u64 {
    let mut ev = Evaluator::new();
    let mut board = Board::new(&position(fen), &ev);
    let before = board.hash;
    let n = perft(&mut board, depth, &mut ev);
    assert_eq!(board.hash, before);
    n
}

const START: &str = "rnbqkbnr/pppppppp/8/8/8/8/PPPPPPPP/RNBQKBNR w KQkq - 0 1";
const KIWIPETE: &str = "r3k2r/p1ppqpb1/bn2pnp1/3PN3/1p2P3/2N2Q1p/PPPBBPPP/R3K2R w KQkq - 0 1";

#[test]
fn perft_of_the_start_position() {
    assert_eq!(leaves(START, 0), 1);
    assert_eq!(leaves(START, 1), 20);
    assert_eq!(leaves(START, 2), 400);
    assert_eq!(leaves(START, 3), 8902);
}

#[test]
fn perft_with_castling_and_en_passant() {
    assert_eq!(leaves(KIWIPETE, 1), 48);
    assert_eq!(leaves(KIWIPETE, 2), 2039);
    assert_eq!(leaves("8/2p5/3p4/KP5r/1R3p1k/8/4P1P1/8 w - - 0 1", 1), 14);
    assert_eq!(leaves("8/2p5/3p4/KP5r/1R3p1k/8/4P1P1/8 w - - 0 1", 2), 191);
    assert_eq!(leaves("8/2p5/3p4/KP5r/1R3p1k/8/4P1P1/8 w - - 0 1", 3), 2812);
}

#[test]
fn perft_with_promotions() {
    let fen = "r3k2r/Pppp1ppp/1b3nbN/nP6/BBP1P3/q4N2/Pp1P2PP/R2Q1RK1 w kq - 0 1";
    assert_eq!(leaves(fen, 1), 6);
    assert_eq!(leaves(fen, 2), 264);
    assert_eq!(leaves("rnbq1k1r/pp1Pbppp/2p5/8/2B5/8/PPP1NnPP/RNBQK2R w KQ - 1 8", 2), 1486);
}

#[test]
fn mate_and_stalemate_have_no_moves() {
    assert_eq!(generate_legal(&position("R5k1/5ppp/8/8/8/8/8/6K1 b - - 0 1")).len(), 0);
    assert_eq!(generate_legal(&position("7k/5Q2/6K1/8/8/8/8/8 b - - 0 1")).len(), 0);
    let ev = Evaluator::new();
    assert!(Board::new(&position("R5k1/5ppp/8/8/8/8/8/6K1 b - - 0 1"), &ev).in_check());
    assert!(!Board::new(&position("7k/5Q2/6K1/8/8/8/8/8 b - - 0 1"), &ev).in_check());
}

#[test]
fn captures_are_the_forcing_legal_moves() {
    let p = position(KIWIPETE);
    let all = generate_legal(&p);
    let caps = generate_legal_caps(&p);
    assert_eq!(caps.len(), 8);
    let forcing: Vec<Move> = all.iter().filter(|m| !m.is_quiet()).copied().collect();
    assert_eq!(caps, forcing);
}

#[test]
fn legal_moves_are_distinct_and_told_apart_by_spelling() {
    let p = position(KIWIPETE);
    let all = generate_legal(&p);
    for (i, a) in all.iter().enumerate() {
        for b in &all[i + 1..] {
            assert_ne!(a, b);
            assert_ne!(text(a), text(b));
        }
        assert_eq!(find_move(&p, &text(a)), Some(*a));
    }
    assert_eq!(find_move(&p, "a1a8"), None);
    assert_eq!(find_move(&p, ""), None);
}

#[test]
fn moves_are_written_in_coordinates() {
    let m = Move { from: 12, to: 28, flag: MoveFlag::DoublePush, promotion: None };
    assert_eq!(text(&m), "e2e4");
    assert!(m.is_quiet());
    assert!(!m.is_capture());
    let q = Move { from: 52, to: 61, flag: MoveFlag::Capture, promotion: Some(PieceType::Queen) };
    assert_eq!(text(&q), "e7f8q");
    assert!(q.is_capture());
    assert!(!q.is_quiet());
    assert_eq!(letter_of(PieceType::Knight), b'n');
    assert_eq!(letter_of(PieceType::Rook), b'r');
    assert_eq!(letter_of(PieceType::Bishop), b'b');
}

#[test]
fn castling_moves_the_rook_and_loses_the_rights() {
    let p = position("r3k2r/8/8/8/8/8/8/R3K2R w KQkq - 5 10");
    let short = p.play(&mv(&p, "e1g1"));
    assert_eq!(short.piece_at(5), Some((PieceType::Rook, Color::White)));
    assert_eq!(short.piece_at(6), Some((PieceType::King, Color::White)));
    assert_eq!(short.piece_at(7), None);
    assert_eq!(short.castling, [false, false, true, true]);
    assert_eq!(short.halfmove, 6);
    let long = p.play(&mv(&p, "e1c1"));
    assert_eq!(long.piece_at(3), Some((PieceType::Rook, Color::White)));
    assert_eq!(long.piece_at(0), None);
    let black = short.play(&mv(&short, "e8c8"));
    assert_eq!(black.piece_at(59), Some((PieceType::Rook, Color::Black)));
    assert_eq!(black.fullmove, 11);
}

#[test]
fn en_passant_takes_the_pawn_beside() {
    let p = position("4k3/8/8/3pP3/8/8/8/4K3 w - d6 0 2");
    let m = mv(&p, "e5d6");
    assert_eq!(m.flag, MoveFlag::EnPassant);
    let q = p.play(&m);
    assert_eq!(q.piece_at(35), None);
    assert_eq!(q.piece_at(43), Some((PieceType::Pawn, Color::White)));
    assert_eq!(total(&q.pieces), 3);
    assert_eq!(q.halfmove, 0);
}

#[test]
fn attacks_stop_at_the_first_piece() {
    let p = position("4k3/8/8/8/4p3/8/8/4RK2 w - - 0 1");
    let occ = occupied(&p.pieces);
    assert!(is_attacked(&p.pieces, occ, 28, Color::White));
    assert!(!is_attacked(&p.pieces, occ, 36, Color::White));
    assert!(is_attacked(&p.pieces, occ, 19, Color::Black));
    assert!(!is_attacked(&p.pieces, occ, 20, Color::Black));
}

#[test]
fn make_and_unmake_restore_the_board() {
    let mut ev = Evaluator::new();
    let mut board = Board::new(&position(KIWIPETE), &ev);
    let hash = board.hash;
    let occ = board.occ_all;
    for m in generate_legal(&board.pos) {
        let undo = board.make_move(&m, &mut ev);
        assert_eq!(board.hash, position_key(&board.pos));
        assert_eq!(board.occ_all, occupied(&board.pos.pieces));
        assert_ne!(board.hash, hash);
        board.unmake_move(&m, &undo);
        assert_eq!(board.hash, hash);
        assert_eq!(board.occ_all, occ);
    }
}

#[test]
fn a_pass_changes_the_side_and_comes_back() {
    let ev = Evaluator::new();
    let mut board = Board::startpos(&ev);
    let hash = board.hash;
    let undo = board.make_null_move();
    assert_eq!(board.pos.side, Color::Black);
    assert_ne!(board.hash, hash);
    assert_eq!(board.hash, position_key(&board.pos));
    board.unmake_null_move(&undo);
    assert_eq!(board.hash, hash);
    assert_eq!(board.pos.side, Color::White);
}

#[test]
fn transposed_lines_share_a_key() {
    let p = position(START);
    let mut a = p;
    for w in ["g1f3", "g8f6", "b1c3"] {
        a = a.play(&mv(&a, w));
    }
    let mut b = p;
    for w in ["b1c3", "g8f6", "g1f3"] {
        b = b.play(&mv(&b, w));
    }
    assert_eq!(position_key(&a), position_key(&b));
    let c = a.play(&mv(&a, "f6g8"));
    assert_ne!(position_key(&a), position_key(&c));
}

#[test]
fn start_position_matches_its_fields() {
    let ev = Evaluator::new();
    let board = Board::startpos(&ev);
    let p = position(START);
    assert_eq!(board.pos.pieces, p.pieces);
    assert_eq!(board.pos.castling, p.castling);
    assert_eq!(board.pos.side, p.side);
    assert_eq!(board.pos.ep, p.ep);
    assert_eq!(board.hash, position_key(&p));
}

#[test]
fn fields_that_do_not_make_a_position_are_refused() {
    for bad in [
        "",
        "rnbqkbnr/pppppppp/8/8/8/8/PPPPPPPP w KQkq - 0 1",
        "rnbqkbnr/pppppppp/9/8/8/8/PPPPPPPP/RNBQKBNR w KQkq - 0 1",
        "rnbqxbnr/pppppppp/8/8/8/8/PPPPPPPP/RNBQKBNR w KQkq - 0 1",
        "rnbq1bnr/pppppppp/8/8/8/8/PPPPPPPP/RNBQKBNR w KQkq - 0 1",
    ] {
        assert!(Position::from_fen(&fields(bad)).is_none(), "{}", bad);
    }
}

#[test]
fn exchanges_are_counted_to_the_end() {
    // A rook takes an undefended pawn.
    let p = position("1k1r4/1pp4p/p7/4p3/8/P5P1/1PP4P/2K1R3 w - - 0 1");
    let m = mv(&p, "e1e5");
    assert!(see_ge(&p, &m, 0));
    assert!(see_ge(&p, &m, PieceType::Pawn.value()));
    assert!(!see_ge(&p, &m, PieceType::Pawn.value() + 1));
    // A knight takes a pawn that is defended.
    let q = position("1k1r3q/1ppn3p/p4b2/4p3/8/P2N2P1/1PP1R1BP/2K1Q3 w - - 0 1");
    let n = mv(&q, "d3e5");
    assert!(!see_ge(&q, &n, 0));
    assert!(see_ge(&q, &n, PieceType::Pawn.value() - PieceType::Knight.value()));
}

#[test]
fn bits_and_squares() {
    assert_eq!(file_of(28), 4);
    assert_eq!(rank_of(28), 3);
    assert!(holds(0b100, 2));
    assert!(!holds(0b100, 1));
    assert_eq!(put(0, 63), 1 << 63);
    assert_eq!(drop_bit(0b110, 1), 0b100);
    assert_eq!(count_ones(0xff), 8);
    assert_eq!(lowest(0b1000), 3);
}

#[test]
fn keys_ignore_the_counters_and_tell_states_apart() {
    let p = position("r3k2r/8/8/8/8/8/8/R3K2R w KQkq - 5 10");
    let mut q = p;
    q.halfmove = 17;
    q.fullmove = 99;
    assert_eq!(position_key(&p), position_key(&q));
    let mut keys: Vec<u64> = vec![position_key(&p)];
    for i in 0..4 {
        let mut r = p;
        r.castling[i] = false;
        keys.push(position_key(&r));
    }
    for s in 0..64u8 {
        let mut r = p;
        r.ep = Some(s);
        keys.push(position_key(&r));
    }
    keys.push(position_key(&p.pass()));
    for (i, a) in keys.iter().enumerate() {
        assert!(keys[i + 1..].iter().all(|b| a != b));
    }
}
