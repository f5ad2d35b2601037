//! Scores, histories, ordering and the clock.
use half2k::clock::allocate;
use half2k::board::{position_key, Board};
use half2k::deepen::{has_room, nps, shown, whole_millis, Mood, Shown};
use half2k::histories::{Butterfly, Histories, PieceTo};
use half2k::lore::{corr_indices, Lore};
use half2k::movegen::generate_legal;
use half2k::moves::Move;
use half2k::nnue::Evaluator;
use half2k::order::{MoveOrder, Stage};
use half2k::params::{param_spec, Features, Limits, Params, PARAM_COUNT};
use half2k::position::Position;
use half2k::rank::{score_moves, Ranked};
use half2k::score::{
    capt_bonus, has_pieces, hist_add, hist_bonus, ilog2i, is_mate, mate_score, score_from_tt,
    score_to_tt, value_in_eval_units, MATE, MATE_IN_MAX,
};
use half2k::trail::Trail;
use half2k::tt::{Bound, TranspositionTable, TT_EVAL_NONE};
use half2k::types::{Color, PieceType};
use half2k::uci::find_move;
use half2k::zobrist::{mix, piece_key, subset_key};

fn setup(s: &str) -> Position {
    let fields: Vec<String> = s.split_whitespace().map(|w| w.to_string()).collect();
    match Position::from_fen(&fields) {
        Some(p) => p,
        None => panic!("unreadable position: {}", s),
    }
}

fn named(p: &Position, word: &str) -> Move {
    match find_move(p, word) {
        Some(m) => m,
        None => panic!("not legal: {}", word),
    }
}

const FIRST: &str = "rnbqkbnr/pppppppp/8/8/8/8/PPPPPPPP/RNBQKBNR w KQkq - 0 1";
const SHARP: &str = "r3k2r/p1ppqpb1/bn2pnp1/3PN3/1p2P3/2N2Q1p/PPPBBPPP/R3K2R w KQkq - 0 1";

#[test]
fn bonuses_are_linear_and_capped() {
    assert_eq!(hist_bonus(1), 200);
    assert_eq!(hist_bonus(19), 3800);
    assert_eq!(hist_bonus(20), 4000);
    assert_eq!(hist_bonus(50), 4000);
    assert_eq!(capt_bonus(0), 0);
    assert_eq!(capt_bonus(1), 430);
    assert_eq!(capt_bonus(3), 1790);
    assert_eq!(capt_bonus(9), 2400);
}

#[test]
fn a_history_entry_saturates() {
    let mut e = 0;
    hist_add(&mut e, 4000, 15000);
    assert_eq!(e, 4000);
    hist_add(&mut e, 4000, 15000);
    assert_eq!(e, 8000 - 4000 * 4000 / 15000);
    hist_add(&mut e, -200, 15000);
    assert_eq!(e, 6934 - 200 - 6934 * 200 / 15000);
    let mut top = 0;
    for _ in 0..500 {
        hist_add(&mut top, 4000, 15000);
        assert!((0..=15000).contains(&top));
    }
    assert!(top > 14000);
}

#[test]
fn mates_are_told_from_evaluations() {
    assert_eq!(mate_score(0), -31000);
    assert_eq!(mate_score(7), -30993);
    assert!(is_mate(MATE - 5));
    assert!(is_mate(-(MATE - 5)));
    assert!(is_mate(MATE_IN_MAX));
    assert!(!is_mate(MATE_IN_MAX - 1));
    assert!(!is_mate(0));
}

#[test]
fn table_scores_go_out_and_come_back() {
    for score in [-30990, -30872, -500, 0, 77, 30871, 30872, 30995] {
        for ply in [0usize, 1, 5] {
            assert_eq!(score_from_tt(score_to_tt(score, ply), ply), score);
        }
    }
    assert_eq!(score_to_tt(30990, 4), 30994);
    assert_eq!(score_to_tt(-30990, 4), -30994);
    assert_eq!(score_from_tt(30994, 10), 30984);
    assert_eq!(score_to_tt(1234, 4), 1234);
}

#[test]
fn logarithms_and_piece_values() {
    assert_eq!(ilog2i(-3), 0);
    assert_eq!(ilog2i(0), 0);
    assert_eq!(ilog2i(1), 0);
    assert_eq!(ilog2i(7), 2);
    assert_eq!(ilog2i(8), 3);
    assert_eq!(value_in_eval_units(PieceType::Pawn), 2 * PieceType::Pawn.value());
    assert!(!has_pieces(&setup("4k3/pppp4/8/8/8/8/8/R3K3 w - - 0 1"), Color::Black));
    assert!(has_pieces(&setup("4k3/pppp4/8/8/8/8/8/R3K3 w - - 0 1"), Color::White));
}

#[test]
fn scores_as_they_are_shown() {
    assert_eq!(shown(31), Shown::Cp(15));
    assert_eq!(shown(-31), Shown::Cp(-15));
    assert_eq!(shown(MATE - 1), Shown::Mate(1));
    assert_eq!(shown(MATE - 3), Shown::Mate(2));
    assert_eq!(shown(-(MATE - 4)), Shown::Mate(-2));
    assert_eq!(nps(5000, 2), 2_500_000);
    assert_eq!(whole_millis(999_999), 1);
    assert_eq!(whole_millis(7_999_999), 7);
    assert!(has_room(10, 4, 19));
    assert!(!has_room(10, 4, 18));
}

#[test]
fn the_mood_follows_the_iterations() {
    let p = setup(FIRST);
    let a = named(&p, "e2e4");
    let b = named(&p, "d2d4");
    let mut m = Mood::new();
    m.note(1, Some(a), 100);
    assert_eq!((m.changes, m.settled, m.average), (1, 0, 100));
    m.note(2, Some(a), 50);
    assert_eq!((m.changes, m.settled, m.average), (1, 1, 95));
    m.note(3, Some(b), 0);
    assert_eq!((m.changes, m.settled, m.average), (2, 0, 85));
}

#[test]
fn butterfly_and_piece_tables() {
    let mut t = Butterfly::new();
    t.credit(12, 28, 300);
    assert_eq!(t.get(12, 28), 300);
    assert_eq!(t.get(28, 12), 0);
    t.clear();
    assert_eq!(t.get(12, 28), 0);
    let mut q = PieceTo::new();
    q.credit(3, 40, -500);
    q.credit(3, 40, -500);
    assert_eq!(q.get(3, 40), -1000 + 500 * 500 / 30000);
    q.clear();
    assert_eq!(q.get(3, 40), 0);
}

#[test]
fn a_cutoff_is_credited_and_remembered() {
    let p = setup(FIRST);
    let mut h = Histories::new(128);
    let a = named(&p, "g1f3");
    let b = named(&p, "b1c3");
    let slots = [Some(12usize * 64 + 28), None, Some(5)];
    h.bestmove(&p, a, 1, &slots, 4, 2);
    assert_eq!(h.killers(4), [Some(a), None, None]);
    // The reply counts double.
    assert_eq!(h.quiet_score(&p, a, &slots), 400 + 2 * 400 + 400);
    assert_eq!(h.quiet_score(&p, b, &slots), 0);
    h.bestmove(&p, b, 1, &slots, 4, 1);
    assert_eq!(h.killers(4), [Some(b), Some(a), None]);
    h.bestmove(&p, a, 1, &slots, 4, 1);
    assert_eq!(h.killers(4), [Some(b), Some(a), None]);
    h.clear();
    assert_eq!(h.killers(4), [None, None, None]);
    assert_eq!(h.quiet_score(&p, a, &slots), 0);
}

#[test]
fn continuation_slots_look_back_one_three_and_five() {
    let p = setup(FIRST);
    let a = named(&p, "e2e4");
    let mut played: Vec<Option<Move>> = vec![None; 8];
    played[0] = Some(a);
    played[4] = Some(named(&p, "g1f3"));
    let s = Histories::cont_slots(&played, 5);
    assert_eq!(s, [Some(6 * 64 + 21), None, Some(12 * 64 + 28)]);
    assert_eq!(Histories::cont_slots(&played, 0), [None, None, None]);
}

#[test]
fn staged_ordering_gives_every_move_once() {
    let ev = Evaluator::new();
    let board = Board::new(&setup(SHARP), &ev);
    let moves = generate_legal(&board.pos);
    let mut hist = Histories::new(128);
    let killer = named(&board.pos, "a2a3");
    hist.bestmove(&board.pos, killer, 0, &[None, None, None], 2, 3);
    let hash = named(&board.pos, "e1g1");
    let mut order = MoveOrder::new(Some(hash), 5, false);
    order.load(&board.pos, &moves);
    let mut given: Vec<Move> = Vec::new();
    while let Some(m) = order.next_move(&board, &hist, &[None, None, None], 2) {
        given.push(m);
    }
    assert_eq!(order.stage, Stage::Done);
    assert_eq!(given.len(), moves.len());
    assert_eq!(given[0], hash);
    for m in &moves {
        assert_eq!(given.iter().filter(|g| *g == m).count(), 1);
    }
    // Winning captures stand before the killer, the killer before other quiets.
    let at = given.iter().position(|m| *m == killer);
    assert!(given[1].is_capture());
    match at {
        Some(i) => {
            assert!(given[1..i].iter().all(|m| m.is_capture()));
            assert!(given[i + 1].is_quiet());
        }
        None => panic!("killer not given"),
    }
    assert_eq!(order.next_move(&board, &hist, &[None, None, None], 2), None);
}

#[test]
fn quiescence_ordering_stops_after_the_captures() {
    let ev = Evaluator::new();
    let board = Board::new(&setup(SHARP), &ev);
    let moves = generate_legal(&board.pos);
    let hist = Histories::new(128);
    let mut order = MoveOrder::new(None, 1, true);
    order.load(&board.pos, &moves);
    let mut n = 0;
    while let Some(m) = order.next_move(&board, &hist, &[None, None, None], 0) {
        assert!(m.is_capture() || m.promotion.is_some());
        n += 1;
    }
    assert!(n > 0 && n <= 8);
}

#[test]
fn ranked_moves_come_best_first() {
    let p = setup(SHARP);
    let moves = generate_legal(&p);
    let n = moves.len();
    let lore = Lore::new();
    let tt = named(&p, "a2a3");
    let mut r: Ranked = score_moves(&lore, false, &p, moves, Some(tt), 0, 4, &[None, None, None]);
    for i in 0..n {
        r.pick(i);
    }
    assert_eq!(r.moves[0], tt);
    for i in 1..n {
        assert!(r.scores[i - 1] >= r.scores[i]);
    }
}

#[test]
fn learning_and_forgetting() {
    let p = setup(SHARP);
    let mut l = Lore::new();
    let quiet = named(&p, "a2a3");
    let other = named(&p, "a2a4");
    let slots = [Some(70usize), None, None];
    l.on_beta_cutoff(&p, quiet, 3, 2, &slots, &vec![other, quiet]);
    // The reply carries double.
    assert_eq!(l.history_of(&p, quiet, &slots), 400 + 2 * 400);
    assert_eq!(l.history_of(&p, other, &slots), -400 - 2 * 400);
    assert_eq!(l.killers[3 * 3], Some(quiet));
    let cap = named(&p, "d5e6");
    l.credit_capture(true, &p, &cap, 430);
    assert_eq!(l.capt_score(true, &p, &cap), 430);
    assert_eq!(l.capt_score(false, &p, &cap), 0);
    l.credit_capture(false, &p, &cap, 430);
    assert_eq!(l.capt_score(true, &p, &cap), 430);
}

#[test]
fn corrections_are_learned_and_bounded() {
    let p = setup(SHARP);
    let mut l = Lore::new();
    assert_eq!(l.corrected(&p, 100, None, 0), 100);
    l.learn_correction(&p, 64, 8, None, 0);
    // Sixty-four in every table: 64 * (203 + 109 + 109 + 121 + 72) / 2048.
    assert_eq!(l.corrected(&p, 100, None, 0), 119);
    l.learn_correction(&p, 5000, 8, None, 0);
    // One update moves an entry by at most a quarter of its ceiling.
    let e = 64 + 256 - 64 * 256 / 1024;
    assert_eq!(l.corrected(&p, 0, None, 0), e * 614 / 2048);
    assert_eq!(l.corrected(&p, 90000, None, 0), MATE_IN_MAX - 1);
}

#[test]
fn repetitions_are_found_two_plies_apart() {
    let mut t = Trail::new();
    for k in [1u64, 2, 3, 4, 1] {
        t.push_key(k);
    }
    assert!(t.is_repetition(1, 6));
    // The position four plies ago is the first after the last irreversible move.
    assert!(t.is_repetition(1, 4));
    assert!(!t.is_repetition(1, 3));
    assert!(!t.is_repetition(2, 6));
    assert!(t.was_seen(2));
    assert!(!t.was_seen(9));
    assert!(t.is_draw(9, 100));
    assert!(!t.is_draw(9, 99));
    assert_eq!(t.hash_delta(), 4 ^ 1);
    t.pop_key();
    assert_eq!(t.hash_delta(), 3 ^ 4);
}

#[test]
fn the_line_of_a_ply_is_a_move_and_the_line_below() {
    let p = setup(FIRST);
    let a = named(&p, "e2e4");
    let q = p.play(&a);
    let b = named(&q, "e7e5");
    let mut t = Trail::new();
    t.clear_line(2);
    t.update_pv(1, b);
    t.update_pv(0, a);
    assert_eq!(t.pv_len[0], 2);
    assert_eq!(t.pv[0], Some(a));
    assert_eq!(t.pv[1], Some(b));
}

#[test]
fn the_game_reaches_above_the_root() {
    let p = setup(FIRST);
    let a = named(&p, "e2e4");
    let b = named(&p, "d2d4");
    let mut t = Trail::new();
    t.set_game_moves(&[a, b]);
    assert_eq!(t.move_back(0, 1), Some(b));
    assert_eq!(t.move_back(0, 2), Some(a));
    assert_eq!(t.move_back(0, 3), None);
    assert_eq!(t.move_back(1, 2), Some(b));
    assert_eq!(t.cont_slots(0), [Some((11 % 6) * 64 + 27), Some((12 % 6) * 64 + 28), None]);
}

#[test]
fn a_stored_result_is_found_again() {
    let mut tt = TranspositionTable::new(1);
    let p = setup(FIRST);
    let m = named(&p, "e2e4");
    assert!(tt.probe(77).is_none());
    tt.store(77, 6, 123, Bound::Lower, Some(m), true, 40);
    match tt.probe(77) {
        Some(e) => {
            assert_eq!((e.depth, e.score, e.bound, e.best, e.pv, e.static_eval), (6, 123, Bound::Lower, Some(m), true, 40));
            assert!(e.has_bound());
        }
        None => panic!("not found"),
    }
    tt.store_eval_only(1234567, -9);
    match tt.probe(1234567) {
        Some(e) => {
            assert_eq!(e.static_eval, -9);
            assert!(!e.has_bound());
        }
        None => panic!("not found"),
    }
    assert_eq!(TT_EVAL_NONE, i16::MIN);
    tt.increase_gen();
    assert!(tt.probe(77).is_some());
    tt.clear();
    assert!(tt.probe(77).is_none());
}

#[test]
fn options_are_found_by_name_and_clamped() {
    let mut p = Params::default();
    for i in 0..PARAM_COUNT {
        let (name, lo, hi) = param_spec(i);
        assert!(lo <= p.get(i) && p.get(i) <= hi, "{}", name);
        assert!(p.set(name, hi + 1));
        assert_eq!(p.get(i), hi);
        assert!(p.set(name, lo - 1));
        assert_eq!(p.get(i), lo);
        assert!(p.set(name, lo));
        assert_eq!(p.get(i), lo);
    }
    assert!(!p.set("no such thing", 3));
    assert!(!p.set("", 3));
}

#[test]
fn extras_start_off_and_the_baseline_starts_on() {
    let mut f = Features::default();
    assert!(!f.corr_hist && !f.razoring && !f.rule50_fade && !f.ref_search && !f.capture_hist);
    assert!(f.log_lmr == Features::default().log_lmr);
    for name in Features::extra().into_iter().chain(Features::baseline()) {
        assert!(f.set(&name.to_lowercase(), true), "{}", name);
        assert!(!f.set(name, true), "{}", name);
    }
    assert!(!f.set("nothing", true));
}

#[test]
fn the_clock_is_shared_out() {
    let params = Params::default();
    let p = setup(FIRST);
    let day = 86_400_000;
    assert_eq!(allocate(&params, 30, &Limits::default(), &p), (day, day));
    let fixed = Limits { movetime: Some(500), ..Limits::default() };
    assert_eq!(allocate(&params, 30, &fixed, &p), (470, 470));
    let tiny = Limits { movetime: Some(10), ..Limits::default() };
    assert_eq!(allocate(&params, 30, &tiny, &p), (1, 1));
    let deep = Limits { depth: Some(5), wtime: Some(1000), ..Limits::default() };
    assert_eq!(allocate(&params, 30, &deep, &p), (day, day));
    let clock = Limits { wtime: Some(60_000), btime: Some(60_000), ..Limits::default() };
    let (soft, hard) = allocate(&params, 30, &clock, &p);
    assert!(1 <= soft && soft <= hard && hard <= 59_970);
    let low = Limits { wtime: Some(20), btime: Some(60_000), ..Limits::default() };
    assert_eq!(allocate(&params, 30, &low, &p), (1, 1));
}

#[test]
fn keys_over_a_subset_of_the_pieces() {
    assert_eq!(mix(0), 0xe220_a839_7b1d_cdaf);
    let p = setup("4k3/8/8/8/8/8/P7/R3K3 w - - 0 1");
    let pawns = subset_key(&p.pieces, &[Color::White, Color::Black], &[PieceType::Pawn]);
    assert_eq!(pawns, piece_key(0, 0, 8));
    let force = subset_key(&p.pieces, &[Color::White], &[PieceType::Rook, PieceType::Queen]);
    assert_eq!(force, piece_key(0, 3, 0));
    assert_eq!(subset_key(&p.pieces, &[Color::Black], &[PieceType::Pawn]), 0);
}

#[test]
fn one_update_moves_a_correction_by_the_cap_at_most() {
    let p = setup(SHARP);
    let mut l = Lore::new();
    for _ in 0..100 {
        l.learn_correction(&p, 5000, 8, None, 0);
    }
    let high = l.corrected(&p, 0, None, 0);
    l.learn_correction(&p, -5000, 8, None, 0);
    let after = l.corrected(&p, 0, None, 0);
    // Every entry settles at its ceiling, then falls by the cap and no further.
    assert_eq!(high, 1024 * 614 / 2048);
    assert_eq!(after, (1024 - 256) * 614 / 2048);
}

#[test]
fn a_correction_belongs_to_the_side_to_move() {
    let p = setup(SHARP);
    let other = setup("r3k2r/p1ppqpb1/bn2pnp1/3PN3/1p2P3/2N2Q1p/PPPBBPPP/R3K2R b KQkq - 0 1");
    let mut l = Lore::new();
    let before = l.corr.clone();
    l.learn_correction(&p, 64, 8, None, 0);
    assert!(l.corrected(&p, 0, None, 0) > 0);
    assert_eq!(l.corrected(&other, 0, None, 0), 0);
    // One entry in each of the five tables, and all of them upwards.
    let changed: Vec<usize> = (0..before.len()).filter(|i| l.corr[*i] != before[*i]).collect();
    assert_eq!(changed.len(), 5);
    for (k, i) in changed.iter().enumerate() {
        assert_eq!(i / 32768, k);
        assert_eq!((i / 16384) % 2, 0);
        assert_eq!(l.corr[*i], 64);
    }
}

#[test]
fn corrections_are_filed_by_what_positions_share() {
    // The same pawns, other pieces on both sides.
    let p = setup("4k3/pp6/8/8/8/8/PP6/R3K3 w - - 0 1");
    let q = setup("4k1n1/pp6/8/8/8/8/PP6/1N2K3 w - - 0 1");
    let mut l = Lore::new();
    l.learn_correction(&p, 64, 8, None, 0);
    assert_eq!(l.corrected(&q, 0, None, 0), 64 * (203 + 121 + 72) / 2048);
    let mut l = Lore::new();
    l.learn_correction(&p, 64, 8, Some((1, 20)), 0);
    assert_eq!(l.corrected(&p, 0, Some((1, 20)), 0), 64 * 614 / 2048);
    assert_eq!(l.corrected(&p, 0, None, 0), 64 * (203 + 109 + 109 + 72) / 2048);
    // With no last move and no change of key the first slot is used.
    let mut l = Lore::new();
    l.learn_correction(&p, 64, 8, None, 0);
    assert_eq!(l.corr[(3 * 2) * 16384], 64);
    assert_eq!(l.corr[(4 * 2) * 16384], 64);
}

#[test]
fn coming_back_to_the_first_position_is_a_repetition() {
    let mut p = setup(FIRST);
    let mut t = Trail::new();
    t.push_key(position_key(&p));
    for w in ["g1f3", "g8f6", "f3g1", "f6g8"] {
        assert!(!t.is_repetition(position_key(&p), p.halfmove));
        p = p.play(&named(&p, w));
        t.push_key(position_key(&p));
    }
    assert_eq!(p.halfmove, 4);
    assert!(t.is_repetition(position_key(&p), p.halfmove));
    assert!(t.is_draw(position_key(&p), p.halfmove));
}

#[test]
fn a_history_entry_leans_neither_way() {
    for max in [15000, 30000, 46340] {
        for bonus in [-200, 200, max, -max] {
            let mut e = 0;
            hist_add(&mut e, bonus, max);
            assert_eq!(e, bonus);
            let mut top = if bonus > 0 { max } else { -max };
            hist_add(&mut top, bonus, max);
            assert_eq!(top, if bonus > 0 { max } else { -max });
        }
        let mut e = max;
        hist_add(&mut e, -200, max);
        assert_eq!(e, max - 400);
    }
}

#[test]
fn the_history_column_stands_on_its_own() {
    let p = setup(SHARP);
    let moves = generate_legal(&p);
    let mut l = Lore::new();
    let slots = [Some(70usize), None, None];
    let quiet = named(&p, "a2a3");
    l.on_beta_cutoff(&p, quiet, 3, 2, &slots, &vec![]);
    let a: Ranked = score_moves(&l, false, &p, moves.clone(), None, 0, 4, &slots);
    l.add_killer(7, named(&p, "e1g1"));
    let b: Ranked = score_moves(&l, true, &p, moves.clone(), Some(quiet), 7, 1, &slots);
    assert_eq!(a.hist, b.hist);
    assert_ne!(a.scores, b.scores);
    for (i, m) in moves.iter().enumerate() {
        if m.is_capture() || m.promotion.is_some() {
            assert_eq!(a.hist[i], 0);
        }
        if *m == quiet {
            assert_eq!(a.hist[i], 1200);
        }
    }
}

#[test]
fn staged_killers_keep_to_their_ply() {
    let p = setup(FIRST);
    let mut h = Histories::new(128);
    let slots = [None, None, None];
    for w in ["g1f3", "b1c3", "g1f3", "e2e4", "d2d4", "e2e4"] {
        h.bestmove(&p, named(&p, w), 1, &slots, 9, 1);
    }
    assert_eq!(
        h.killers(9),
        [Some(named(&p, "d2d4")), Some(named(&p, "e2e4")), Some(named(&p, "b1c3"))]
    );
    assert_eq!(h.killers(8), [None, None, None]);
    assert_eq!(h.killers(10), [None, None, None]);
}

#[test]
fn the_stages_come_in_order() {
    // A good capture, a bad one, and quiet moves, two of them with a history.
    let ev = Evaluator::new();
    let board = Board::new(&setup("4k3/2p5/3p4/8/3Q2b1/8/4P1P1/4K1R1 w - - 0 1"), &ev);
    let moves = generate_legal(&board.pos);
    let mut hist = Histories::new(128);
    let slots = [None, None, None];
    let (low, high) = (named(&board.pos, "g2g3"), named(&board.pos, "e2e3"));
    hist.bestmove(&board.pos, low, 0, &slots, 5, 1);
    hist.bestmove(&board.pos, high, 0, &slots, 5, 2);
    let killer = named(&board.pos, "e1f2");
    hist.bestmove(&board.pos, killer, 5, &slots, 3, 1);
    let hash = named(&board.pos, "g1f1");
    let mut order = MoveOrder::new(Some(hash), 1, false);
    order.load(&board.pos, &moves);
    let mut given: Vec<Move> = Vec::new();
    while let Some(m) = order.next_move(&board, &hist, &slots, 3) {
        given.push(m);
    }
    assert_eq!(given.len(), moves.len());
    assert_eq!(given[0], hash);
    assert_eq!(given[1], named(&board.pos, "d4g4"));
    assert_eq!(given[2], killer);
    assert_eq!(given[3], high);
    assert_eq!(given[4], low);
    assert_eq!(given[given.len() - 1], named(&board.pos, "d4d6"));
    // The quiet moves with nothing to tell them apart stay as they were made.
    let rest: Vec<Move> = moves
        .iter()
        .filter(|m| m.is_quiet() && ![hash, killer, high, low].contains(m))
        .cloned()
        .collect();
    assert_eq!(given[5..given.len() - 1].to_vec(), rest);
}

#[test]
fn killers_of_a_ply_do_not_repeat() {
    let p = setup(FIRST);
    let mut l = Lore::new();
    for w in ["e2e4", "d2d4", "e2e4", "c2c4", "b2b4", "c2c4"] {
        l.add_killer(5, named(&p, w));
    }
    assert_eq!(l.killers[15], Some(named(&p, "b2b4")));
    assert_eq!(l.killers[16], Some(named(&p, "c2c4")));
    assert_eq!(l.killers[17], Some(named(&p, "d2d4")));
    assert!(l.killers[12..15].iter().all(|k| k.is_none()));
}

#[test]
fn a_subset_key_looks_at_the_chosen_pieces_alone() {
    let a = setup("4k3/8/8/8/8/8/P7/R3K3 w - - 0 1");
    let b = setup("3qk3/8/8/8/8/8/P7/4K1R1 w - - 0 1");
    let both = [Color::White, Color::Black];
    assert_eq!(
        subset_key(&a.pieces, &both, &[PieceType::Pawn]),
        subset_key(&b.pieces, &both, &[PieceType::Pawn])
    );
    assert_ne!(
        subset_key(&a.pieces, &[Color::White], &[PieceType::Rook]),
        subset_key(&b.pieces, &[Color::White], &[PieceType::Rook])
    );
}

#[test]
fn correction_slots_follow_what_they_are_named_after() {
    let p = setup("4k3/pp6/8/8/8/8/PP6/R3K3 w - - 0 1");
    let q = setup("4k1n1/pp6/8/8/8/8/PP6/R3K3 b - - 0 1");
    let a = corr_indices(&p, None, 0);
    let b = corr_indices(&q, Some((1, 20)), 77);
    assert!(a.iter().chain(b.iter()).all(|i| *i < 16384));
    // The same pawns, the same White force; Black has a knight more.
    assert_eq!(a[0], b[0]);
    assert_eq!(a[1], b[1]);
    assert_ne!(a[2], b[2]);
    assert_eq!((a[3], a[4]), (0, 0));
    assert_eq!(b[4], (mix(77) & 16383) as usize);
    assert_eq!(corr_indices(&p, Some((1, 20)), 0)[3], b[3]);
}

#[test]
fn any_miss_that_fits_can_be_learned_from() {
    let p = setup(SHARP);
    for (diff, depth, entry) in [
        (i32::MAX, 1, 256),
        (i32::MIN, 1, -256),
        (-64, -8, 64),
        (5000, 0, 0),
        (1, i32::MAX, 256),
    ] {
        let mut l = Lore::new();
        l.learn_correction(&p, diff, depth, None, 0);
        assert_eq!(l.corrected(&p, 0, None, 0), entry * 614 / 2048);
    }
}

#[test]
fn depths_far_out_are_ordered_all_the_same() {
    let p = setup(SHARP);
    let moves = generate_legal(&p);
    let l = Lore::new();
    let slots = [None, None, None];
    let near: Ranked = score_moves(&l, false, &p, moves.clone(), None, 0, 6, &slots);
    let far: Ranked = score_moves(&l, false, &p, moves.clone(), None, 0, 42_949_673, &slots);
    // The bar has stopped falling long before.
    assert_eq!(near.scores, far.scores);
    let below: Ranked = score_moves(&l, false, &p, moves.clone(), None, 0, -42_949_671, &slots);
    for (i, m) in moves.iter().enumerate() {
        assert!(!m.is_capture() || below.scores[i] < 0);
    }
}

#[test]
fn a_depth_below_nothing_charges_and_is_remembered() {
    let p = setup(FIRST);
    let mut h = Histories::new(128);
    let slots = [None, None, None];
    let m = named(&p, "g1f3");
    h.bestmove(&p, m, 1, &slots, 4, -75);
    assert_eq!(h.killers(4), [Some(m), None, None]);
    assert_eq!(h.quiet_score(&p, m, &slots), -15000);
}
