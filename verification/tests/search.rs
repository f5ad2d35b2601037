//! The search as a whole.
use half2k::board::Board;
use half2k::deepen::{Pace, Report};
use half2k::movegen::generate_legal;
use half2k::moves::Move;
use half2k::nnue::{install, Network, NET_BYTES};
use half2k::params::{Limits, Params};
use half2k::position::Position;
use half2k::score::{MATE, INF};
use half2k::searcher::{time_is_up, Searcher};
use half2k::uci::find_move;
use std::sync::atomic::{AtomicBool, Ordering};
use std::sync::{Arc, Mutex};

fn reductions() -> Vec<i32> {
    let p = Params::default();
    let base = p.lmr_base as f64 / 100.0;
    let div = (p.lmr_div as f64 / 100.0).max(0.01);
    let mut out = vec![0i32; 4096];
    for d in 1..64usize {
        for m in 1..64usize {
            out[d * 64 + m] = (base + (d as f64).ln() * (m as f64).ln() / div) as i32;
        }
    }
    out
}

fn fresh() -> Searcher {
    Searcher::new(1, Arc::new(AtomicBool::new(false)), reductions())
}

fn at(s: &str) -> Position {
    let fields: Vec<String> = s.split_whitespace().map(|w| w.to_string()).collect();
    match Position::from_fen(&fields) {
        Some(p) => p,
        None => panic!("unreadable position: {}", s),
    }
}

fn word(m: Move) -> String {
    m.to_uci().iter().map(|b| *b as char).collect()
}

fn keep(p: Pace) -> u128 {
    p.base
}

fn quiet(_r: Report) {}

fn best(s: &mut Searcher, fen: &str, depth: u32) -> Option<String> {
    let mut board = Board::new(&at(fen), &s.ev);
    s.set_game_history(vec![board.hash]);
    let limits = Limits { depth: Some(depth), ..Limits::default() };
    let m = s.go(&mut board, &limits, &keep, &quiet);
    assert_eq!(board.hash, Board::new(&at(fen), &s.ev).hash);
    m.map(word)
}

const MATE_IN_ONE: &str = "6k1/5ppp/8/8/8/8/8/R3K3 w - - 0 1";
const NO_MOVES: &str = "7k/5Q2/6K1/8/8/8/8/8 b - - 0 1";

#[test]
fn a_mate_in_one_is_played() {
    let mut s = fresh();
    assert_eq!(best(&mut s, MATE_IN_ONE, 3), Some("a1a8".to_string()));
    assert_eq!(s.completed, 3);
    assert!(!s.stopped);
}

#[test]
fn a_mate_in_one_is_played_by_the_staged_search() {
    let mut s = fresh();
    s.features.ref_search = true;
    assert_eq!(best(&mut s, MATE_IN_ONE, 3), Some("a1a8".to_string()));
}

#[test]
fn a_mate_is_reported_in_moves() {
    let mut s = fresh();
    let scores: Mutex<Vec<(u32, i32, usize)>> = Mutex::new(Vec::new());
    let mut board = Board::new(&at(MATE_IN_ONE), &s.ev);
    s.set_game_history(vec![board.hash]);
    let limits = Limits { depth: Some(2), ..Limits::default() };
    let report = |r: Report| {
        assert!(r.ms >= 1);
        match scores.lock() {
            Ok(mut v) => v.push((r.depth, r.score, r.pv.len())),
            Err(_) => panic!("poisoned"),
        }
    };
    s.go(&mut board, &limits, &keep, &report);
    let seen = match scores.into_inner() {
        Ok(v) => v,
        Err(_) => panic!("poisoned"),
    };
    assert_eq!(seen.len(), 2);
    assert_eq!(seen[1].0, 2);
    assert_eq!(seen[1].1, MATE - 1);
    assert_eq!(seen[1].2, 1);
}

#[test]
fn without_a_legal_move_there_is_no_answer() {
    let mut s = fresh();
    assert_eq!(best(&mut s, NO_MOVES, 4), None);
    assert_eq!(best(&mut s, "R5k1/5ppp/8/8/8/8/8/6K1 b - - 0 1", 4), None);
}

#[test]
fn a_depth_of_nothing_still_answers() {
    let mut s = fresh();
    let fen = "rnbqkbnr/pppppppp/8/8/8/8/PPPPPPPP/RNBQKBNR w KQkq - 0 1";
    let first = generate_legal(&at(fen))[0];
    assert_eq!(best(&mut s, fen, 0), Some(word(first)));
    assert_eq!(s.completed, 0);
}

#[test]
fn the_same_search_twice_gives_the_same_answer() {
    let fen = "r3k2r/p1ppqpb1/bn2pnp1/3PN3/1p2P3/2N2Q1p/PPPBBPPP/R3K2R w KQkq - 0 1";
    for staged in [false, true] {
        let mut a = fresh();
        a.features.ref_search = staged;
        let mut b = fresh();
        b.features.ref_search = staged;
        let x = best(&mut a, fen, 4);
        let y = best(&mut b, fen, 4);
        assert_eq!(x, y);
        assert_eq!(a.nodes, b.nodes);
        assert!(a.nodes > 0);
    }
}

#[test]
fn every_switch_can_be_on() {
    let fen = "r3k2r/p1ppqpb1/bn2pnp1/3PN3/1p2P3/2N2Q1p/PPPBBPPP/R3K2R w KQkq - 0 1";
    let mut s = fresh();
    for name in half2k::params::Features::extra() {
        if name.to_lowercase() != "refsearch" {
            assert!(s.features.set(&name.to_lowercase(), true));
        }
    }
    let m = best(&mut s, fen, 4);
    match m {
        Some(w) => assert!(find_move(&at(fen), &w).is_some()),
        None => panic!("no move"),
    }
}

#[test]
fn a_node_limit_ends_the_search() {
    let fen = "rnbqkbnr/pppppppp/8/8/8/8/PPPPPPPP/RNBQKBNR w KQkq - 0 1";
    let mut s = fresh();
    let mut board = Board::new(&at(fen), &s.ev);
    s.set_game_history(vec![board.hash]);
    let limits = Limits { nodes: Some(200), ..Limits::default() };
    assert!(s.go(&mut board, &limits, &keep, &quiet).is_some());
    assert!(s.nodes >= 200);
    assert!(s.completed < 20);
}

#[test]
fn the_clock_ends_the_search() {
    // Only the clock can end this: without reading it the search would go on.
    let fen = "r3k2r/p1ppqpb1/bn2pnp1/3PN3/1p2P3/2N2Q1p/PPPBBPPP/R3K2R w KQkq - 0 1";
    let mut s = fresh();
    let mut board = Board::new(&at(fen), &s.ev);
    s.set_game_history(vec![board.hash]);
    let limits = Limits { movetime: Some(130), ..Limits::default() };
    let m = s.go(&mut board, &limits, &keep, &quiet);
    match m {
        Some(m) => assert!(generate_legal(&board.pos).contains(&m)),
        None => panic!("no move"),
    }
    assert!(s.completed < 126);
}

#[test]
fn a_raised_flag_is_lowered_by_the_next_search() {
    let stop = Arc::new(AtomicBool::new(true));
    let mut s = Searcher::new(1, stop.clone(), reductions());
    assert_eq!(best(&mut s, MATE_IN_ONE, 2), Some("a1a8".to_string()));
    assert!(!stop.load(Ordering::Relaxed));
    stop.store(true, Ordering::Relaxed);
    s.nodes = 0;
    assert!(s.out_of_time());
    s.lower_flag();
    assert!(!stop.load(Ordering::Relaxed));
    assert!(s.out_of_time());
}

#[test]
fn the_wall_and_the_flag_end_a_search() {
    assert!(time_is_up(10, 10, false));
    assert!(time_is_up(0, 10, true));
    assert!(!time_is_up(9, 10, false));
}

#[test]
fn between_readings_the_clock_is_left_alone() {
    let mut s = fresh();
    s.nodes = 511;
    s.hard = 0;
    assert!(!s.out_of_time());
    s.count_node();
    assert!(s.out_of_time());
    assert!(s.stopped);
}

#[test]
fn a_draw_is_worth_the_opposite_one_ply_on() {
    let mut s = fresh();
    assert!(s.params.set("contempt", 20) || s.params.set("Contempt", 20));
    assert_eq!(s.draw_score(0), -20);
    assert_eq!(s.draw_score(1), 20);
    assert_eq!(s.draw_score(2), -20);
}

#[test]
fn an_immediate_repetition_is_seen() {
    let p = at("6k1/8/8/8/8/8/8/R3K3 w - - 4 10");
    let m = match find_move(&p, "a1b1") {
        Some(m) => m,
        None => panic!("not legal"),
    };
    let next = p.play(&m);
    let mut s = fresh();
    s.set_game_history(vec![half2k::board::position_key(&p)]);
    assert!(!s.repeats_at_once(&p, &m));
    s.set_game_history(vec![half2k::board::position_key(&next), half2k::board::position_key(&p)]);
    assert!(s.repeats_at_once(&p, &m));
}

#[test]
fn quiescence_takes_what_is_free() {
    // Every weight zero but the table of the pieces' own worth: a queen counts.
    let mut s = fresh();
    let mut n = match Network::load(&vec![0u8; NET_BYTES]) {
        Ok(n) => n,
        Err(n) => panic!("{} bytes refused", n),
    };
    for f in 0..24576usize {
        // Own queens count for, enemy queens against.
        let kind = (f / 64) % 12;
        let v: i16 = if kind == 4 { 900 } else if kind == 10 { -900 } else { 0 };
        n.psqt[f] = [v; 4];
    }
    assert!(install(&mut s.ev, n));
    let mut board = Board::new(&at("4k3/8/8/3q4/8/8/8/3RK3 w - - 0 1"), &s.ev);
    s.set_game_history(vec![board.hash]);
    let stand = half2k::score::debug_eval(&board, &s.ev, false);
    let v = s.quiescence(&mut board, -INF, INF, 0);
    assert!(v > stand);
    assert_eq!(v, 0);
    let mut t = fresh();
    std::mem::swap(&mut s.ev, &mut t.ev);
    t.set_game_history(vec![board.hash]);
    assert_eq!(t.quiescence_ref(&mut board, -INF, INF, 0), 0);
    assert_eq!(best(&mut t, "4k3/8/8/3q4/8/8/8/3RK3 w - - 0 1", 3), Some("d1d5".to_string()));
}

#[test]
fn clearing_forgets_what_was_learned() {
    let mut s = fresh();
    let fen = "r3k2r/p1ppqpb1/bn2pnp1/3PN3/1p2P3/2N2Q1p/PPPBBPPP/R3K2R w KQkq - 0 1";
    best(&mut s, fen, 4);
    assert!(s.lore.history.iter().any(|v| *v != 0));
    s.clear();
    assert!(s.lore.history.iter().all(|v| *v == 0));
    assert!(s.lore.killers.iter().all(|k| k.is_none()));
    assert!(s.tt.probe(Board::new(&at(fen), &s.ev).hash).is_none());
}

#[test]
fn a_search_without_a_move_leaves_no_result_behind() {
    let fen = "r3k2r/p1ppqpb1/bn2pnp1/3PN3/1p2P3/2N2Q1p/PPPBBPPP/R3K2R w KQkq - 0 1";
    for staged in [false, true] {
        let mut s = fresh();
        let mut board = Board::new(&at(fen), &s.ev);
        s.set_game_history(vec![board.hash]);
        let m = match find_move(&board.pos, "e2a6") {
            Some(m) => m,
            None => panic!("not legal"),
        };
        if staged {
            s.negamax_ref(&mut board, 3, -INF, INF, 1, false, false, Some(m));
        } else {
            s.negamax(&mut board, 3, -INF, INF, 1, false, false, Some(m));
        }
        assert!(!s.tt.probe(board.hash).is_some_and(|e| e.has_bound()));
        if staged {
            s.negamax_ref(&mut board, 3, -INF, INF, 1, false, false, None);
        } else {
            s.negamax(&mut board, 3, -INF, INF, 1, false, false, None);
        }
        assert!(s.tt.probe(board.hash).is_some_and(|e| e.has_bound()));
    }
}

#[test]
fn the_plan_never_passes_the_wall() {
    let mut s = fresh();
    let mut board = Board::new(&at(MATE_IN_ONE), &s.ev);
    s.set_game_history(vec![board.hash]);
    let limits = Limits { depth: Some(3), ..Limits::default() };
    s.go(&mut board, &limits, &|p: Pace| p.base * 1000, &quiet);
    assert_eq!(s.soft, s.hard);
    assert_eq!(s.hard, 86_400_000 * 1_000_000);
}

#[test]
fn a_mated_side_is_scored_by_its_distance() {
    let p = at("R5k1/5ppp/8/8/8/8/8/4K3 b - - 0 1");
    for staged in [false, true] {
        let mut s = fresh();
        let mut board = Board::new(&p, &s.ev);
        s.set_game_history(vec![board.hash]);
        let v = if staged {
            s.negamax_ref(&mut board, 4, -INF, INF, 3, true, false, None)
        } else {
            s.negamax(&mut board, 4, -INF, INF, 3, true, false, None)
        };
        assert_eq!(v, -30997);
        assert_eq!(s.nodes, 1);
    }
}

#[test]
fn a_drawn_node_is_worth_the_draw_score() {
    let p = at("4k3/8/8/8/8/8/8/R3K3 w - - 100 90");
    let mut s = fresh();
    s.params.contempt = 20;
    let mut board = Board::new(&p, &s.ev);
    s.set_game_history(vec![board.hash]);
    assert_eq!(s.negamax(&mut board, 4, -INF, INF, 1, true, false, None), 20);
    assert_eq!(s.nodes, 1);
    assert_eq!(s.negamax(&mut board, 4, -INF, INF, 2, true, false, None), -20);
    assert_eq!(s.nodes, 2);
    assert_eq!(s.negamax_ref(&mut board, 4, -INF, INF, 2, true, false, None), 0);
    assert_eq!(s.nodes, 3);
}

#[test]
fn a_mate_in_hand_ends_a_node_at_once() {
    for staged in [false, true] {
        let mut s = fresh();
        let mut board = Board::startpos(&s.ev);
        s.set_game_history(vec![board.hash]);
        let v = if staged {
            s.negamax_ref(&mut board, 5, 30999, 32000, 2, true, false, None)
        } else {
            s.negamax(&mut board, 5, 30999, 32000, 2, true, false, None)
        };
        assert_eq!(v, 30999);
        assert_eq!(s.nodes, 1);
    }
}

#[test]
fn walking_back_is_seen_as_a_draw_by_the_search() {
    let mut s = fresh();
    let mut board = Board::startpos(&s.ev);
    let words: Vec<String> = "position startpos moves g1f3 g8f6 f3g1 f6g8"
        .split(' ')
        .map(|w| w.to_string())
        .collect();
    assert_eq!(s.set_position(&mut board, &words), Some(None));
    assert_eq!(s.negamax(&mut board, 4, -INF, INF, 2, true, false, None), -s.params.contempt);
    assert_eq!(s.nodes, 1);
}

#[test]
fn a_short_search_is_never_cut_short() {
    // The clock has long run out, but no reading falls due in so few nodes.
    let mut s = fresh();
    s.hard = 0;
    let mut board = Board::new(&at("4k3/8/8/8/8/8/8/4K3 w - - 0 1"), &s.ev);
    s.set_game_history(vec![board.hash]);
    s.negamax(&mut board, 2, -INF, INF, 1, true, false, None);
    assert!(s.nodes > 1 && s.nodes < 512);
    assert!(!s.stopped);
    s.nodes = 511;
    s.negamax(&mut board, 2, -INF, INF, 1, true, false, None);
    assert!(s.stopped);
}

/// The nodes of one search, with a network in which only queens count.
fn nodes_with(check_ext: bool, fen: &str) -> (u64, i32) {
    let mut s = fresh();
    let mut n = match Network::load(&vec![0u8; NET_BYTES]) {
        Ok(n) => n,
        Err(n) => panic!("{} bytes refused", n),
    };
    for f in 0..24576usize {
        let kind = (f / 64) % 12;
        let v: i16 = if kind == 4 { 900 } else if kind == 10 { -900 } else { 0 };
        n.psqt[f] = [v; 4];
    }
    assert!(install(&mut s.ev, n));
    s.features.check_ext = check_ext;
    let mut board = Board::new(&at(fen), &s.ev);
    let eval = half2k::score::debug_eval(&board, &s.ev, false);
    s.set_game_history(vec![board.hash]);
    s.negamax(&mut board, 3, -INF, INF, 1, true, false, None);
    (s.nodes, eval)
}

#[test]
fn a_check_is_extended_while_the_game_is_open() {
    let open = "4k3/3p4/8/8/8/8/8/R3K3 w - - 0 1";
    let (off, eval) = nodes_with(false, open);
    assert_eq!(eval, 0);
    assert!(nodes_with(true, open).0 > off);
    let decided = "4k3/3p4/8/8/8/8/8/Q3K3 w - - 0 1";
    let (off, eval) = nodes_with(false, decided);
    assert!(eval > 75);
    assert_eq!(nodes_with(true, decided).0, off);
}

#[test]
fn every_finished_iteration_is_reported() {
    let told: Mutex<Vec<(u32, i32, u64, u64, usize)>> = Mutex::new(Vec::new());
    let tell = |r: Report| told.lock().unwrap().push((r.depth, r.score, r.nodes, r.ms, r.pv.len()));
    let mut s = fresh();
    let mut board = Board::new(&at("4k3/3p4/8/8/8/8/8/R3K3 w - - 0 1"), &s.ev);
    s.set_game_history(vec![board.hash]);
    let limits = Limits { depth: Some(4), ..Limits::default() };
    s.go(&mut board, &limits, &keep, &tell);
    let told = told.lock().unwrap();
    assert_eq!(told.iter().map(|r| r.0).collect::<Vec<_>>(), vec![1, 2, 3, 4]);
    assert_eq!(s.completed, 4);
    assert!(told.windows(2).all(|w| w[0].2 < w[1].2 && w[0].3 <= w[1].3));
    assert!(told.iter().all(|r| r.3 >= 1 && r.4 >= 1));
    assert_eq!(told[3].2, s.nodes);
}

#[test]
fn the_plan_is_what_the_scaling_makes_of_it() {
    let fen = "4k3/3p4/8/8/8/8/8/R3K3 w - - 0 1";
    let run = |scale: &dyn Fn(Pace) -> u128| {
        let mut s = fresh();
        let mut board = Board::new(&at(fen), &s.ev);
        s.set_game_history(vec![board.hash]);
        let limits = Limits { depth: Some(5), ..Limits::default() };
        s.go(&mut board, &limits, &|p: Pace| scale(p), &quiet);
        (s.completed, s.soft, s.hard)
    };
    let day = 86_400_000u128 * 1_000_000;
    // Nothing of the plan left: one iteration is all there is room for.
    assert_eq!(run(&|_| 0), (1, 0, day));
    assert_eq!(run(&|p| p.base), (5, day, day));
    assert_eq!(run(&|p| p.base / 2), (5, day / 2, day));
    // The scaling moves the plan, never the wall.
    assert_eq!(run(&|p| p.base * 3), (5, day, day));
}

#[test]
fn the_scaling_is_told_about_the_search() {
    let seen: Mutex<Vec<Pace>> = Mutex::new(Vec::new());
    let scale = |p: Pace| {
        seen.lock().unwrap().push(p);
        p.base
    };
    let mut s = fresh();
    let mut board = Board::new(&at(MATE_IN_ONE), &s.ev);
    s.set_game_history(vec![board.hash]);
    let limits = Limits { depth: Some(3), ..Limits::default() };
    s.go(&mut board, &limits, &scale, &quiet);
    let seen = seen.lock().unwrap();
    assert_eq!(seen.len(), 3);
    // The mating move stands from the first iteration on.
    assert_eq!(seen.iter().map(|p| (p.changes, p.settled)).collect::<Vec<_>>(), vec![(1, 0), (1, 1), (1, 2)]);
    assert!(seen.iter().all(|p| p.base == 86_400_000 * 1_000_000 && p.drop == 0));
    assert!(seen.iter().all(|p| 0 < p.on_best && p.on_best as u128 <= p.spent));
}

#[test]
fn the_wall_ends_the_search_below_the_root() {
    // The wall stands at nothing: the first reading ends the search.
    let mut s = fresh();
    s.hard = 0;
    let mut board = Board::startpos(&s.ev);
    s.set_game_history(vec![board.hash]);
    s.nodes = 500;
    s.negamax(&mut board, 6, -INF, INF, 1, true, false, None);
    assert!(s.stopped);
    assert_eq!(s.nodes, 512);
    // With the wall out of reach and nobody asking, it goes on past the reading.
    let mut s = fresh();
    s.hard = u128::MAX;
    s.set_game_history(vec![board.hash]);
    s.negamax(&mut board, 3, -INF, INF, 1, true, false, None);
    s.nodes = 511;
    s.negamax(&mut board, 2, -INF, INF, 1, true, false, None);
    assert!(!s.stopped);
    // And a request to stop is seen at the next reading.
    s.stop.store(true, Ordering::Relaxed);
    s.nodes = 511;
    s.negamax(&mut board, 2, -INF, INF, 1, true, false, None);
    assert!(s.stopped);
    assert_eq!(s.nodes, 512);
}

#[test]
fn twice_the_plan_ends_an_iteration_at_the_root() {
    // No plan at all, but a wall out of reach: the second root move is the last.
    let mut s = fresh();
    s.soft = 0;
    s.hard = u128::MAX;
    let mut board = Board::startpos(&s.ev);
    s.set_game_history(vec![board.hash]);
    s.negamax(&mut board, 2, -INF, INF, 0, true, false, None);
    assert!(s.stopped);
    assert!(s.root_scores.len() <= 3);
    let mut s = fresh();
    s.soft = u128::MAX;
    s.hard = u128::MAX;
    s.set_game_history(vec![board.hash]);
    s.negamax(&mut board, 2, -INF, INF, 0, true, false, None);
    assert!(!s.stopped);
    assert_eq!(s.root_scores.len(), 20);
}
