//! The words of the engine protocol.
use half2k::board::{position_key, Board};
use half2k::nnue::{net, Evaluator, Network, NET_BYTES};
use half2k::params::Limits;
use half2k::searcher::Searcher;
use half2k::session::{Action, Session};
use half2k::text::{parse_signed, parse_unsigned, same_but_case, same_text, words_of};
use half2k::uci::{
    command_of, hash_size, join, option_name, option_words, parse_go, play_words, word_at, Change,
    Command, OptionName,
};
use std::sync::atomic::AtomicBool;
use std::sync::Arc;

fn split(s: &str) -> Vec<String> {
    s.split_whitespace().map(|w| w.to_string()).collect()
}

fn idle() -> Searcher {
    Searcher::new(1, Arc::new(AtomicBool::new(false)), vec![0; 4096])
}

#[test]
fn commands_are_told_apart() {
    assert_eq!(command_of("uci"), Command::Uci);
    assert_eq!(command_of("isready"), Command::IsReady);
    assert_eq!(command_of("setoption"), Command::SetOption);
    assert_eq!(command_of("ucinewgame"), Command::NewGame);
    assert_eq!(command_of("position"), Command::Position);
    assert_eq!(command_of("go"), Command::Go);
    assert_eq!(command_of("stop"), Command::Stop);
    assert_eq!(command_of("quit"), Command::Quit);
    assert_eq!(command_of("eval"), Command::Eval);
    assert_eq!(command_of("UCI"), Command::Unknown);
    assert_eq!(command_of("uc"), Command::Unknown);
    assert_eq!(command_of(""), Command::Unknown);
}

#[test]
fn numbers_are_read_whole() {
    assert_eq!(parse_unsigned("0", u64::MAX), Some(0));
    assert_eq!(parse_unsigned("18446744073709551615", u64::MAX), Some(u64::MAX));
    assert_eq!(parse_unsigned("18446744073709551616", u64::MAX), None);
    assert_eq!(parse_unsigned("+7", u64::MAX), Some(7));
    assert_eq!(parse_unsigned("-7", u64::MAX), None);
    assert_eq!(parse_unsigned("", u64::MAX), None);
    assert_eq!(parse_unsigned("12a", u64::MAX), None);
    assert_eq!(parse_signed("-2147483648"), Some(i32::MIN));
    assert_eq!(parse_signed("2147483647"), Some(i32::MAX));
    assert_eq!(parse_signed("2147483648"), None);
    assert_eq!(parse_signed("-"), None);
    assert_eq!(parse_signed("+12"), Some(12));
}

#[test]
fn texts_are_compared() {
    assert!(same_text("abc", "abc"));
    assert!(!same_text("abc", "abd"));
    assert!(!same_text("abc", "ab"));
    assert!(same_but_case("TrUe", "true"));
    assert!(!same_but_case("truE1", "true"));
}

#[test]
fn limits_are_read_from_go() {
    let l = parse_go(&split("go wtime 1000 btime 2000 winc 10 binc 20 movestogo 5"));
    assert_eq!((l.wtime, l.btime, l.winc, l.binc), (Some(1000), Some(2000), 10, 20));
    assert_eq!(l.movestogo, Some(5));
    assert_eq!((l.movetime, l.depth, l.nodes, l.infinite), (None, None, None, false));
    let l = parse_go(&split("go depth 7 nodes 100 movetime 50 infinite"));
    assert_eq!((l.depth, l.nodes, l.movetime, l.infinite), (Some(7), Some(100), Some(50), true));
    // A number that cannot be read counts as not given, and the last word wins.
    let l = parse_go(&split("go depth 3 depth x winc y"));
    assert_eq!((l.depth, l.winc), (None, 0));
    let l = parse_go(&split("go"));
    assert_eq!((l.depth, l.wtime, l.infinite), (None, None, false));
    assert_eq!(parse_go(&split("go ponder wtime")).wtime, Limits::default().wtime);
    assert_eq!(parse_go(&split("go depth 4294967299")).depth, Some(3));
}

#[test]
fn moves_are_played_until_one_is_not_legal() {
    let mut ev = Evaluator::new();
    let mut board = Board::startpos(&ev);
    let first = board.hash;
    let line = play_words(&mut board, &split("e2e4 e7e5 e1e3 d2d4"), 0, &mut ev);
    assert_eq!(line.played.len(), 2);
    assert_eq!(line.keys.len(), 3);
    assert_eq!(line.keys[0], first);
    assert_eq!(line.keys[2], board.hash);
    assert_eq!(line.bad, Some(2));
}

#[test]
fn a_position_is_set_up_and_the_game_told() {
    let mut s = idle();
    let mut board = Board::startpos(&s.ev);
    let start = board.hash;
    let r = s.set_position(&mut board, &split("position startpos moves e2e4 e7e5"));
    assert_eq!(r, Some(None));
    assert_eq!(s.root_keys, 3);
    assert_eq!(s.trail.keys[0], start);
    assert_eq!(s.trail.keys[2], board.hash);
    assert_eq!(board.hash, position_key(&board.pos));
    let last = s.trail.pre_moves[0];
    assert_eq!(last.map(|m| (m.from, m.to)), Some((52, 36)));
    let r = s.set_position(&mut board, &split("position fen 4k3/8/8/8/8/8/8/R3K3 w Q - 0 1 moves a1a8 e8e1"));
    assert_eq!(r, Some(Some(10)));
    assert_eq!(s.root_keys, 2);
    // A position that cannot be read changes nothing.
    let before = board.hash;
    assert_eq!(s.set_position(&mut board, &split("position fen 4k3/8/8 w - - 0 1")), None);
    assert_eq!(board.hash, before);
    assert_eq!(s.root_keys, 2);
    // With neither, the position there is stays.
    assert_eq!(s.set_position(&mut board, &split("position moves")), Some(None));
    assert_eq!(board.hash, before);
    assert_eq!(s.root_keys, 1);
}

#[test]
fn a_new_game_starts_over() {
    let mut s = idle();
    let mut board = Board::startpos(&s.ev);
    s.set_position(&mut board, &split("position startpos moves e2e4"));
    let b = s.new_game();
    assert_eq!(b.hash, Board::startpos(&s.ev).hash);
    assert_eq!(s.trail.keys, vec![b.hash]);
    assert_eq!(s.root_keys, 1);
}

#[test]
fn options_carry_spaces() {
    let t = split("setoption name Move Overhead value 45 ms");
    match option_words(&t) {
        Some((n, v)) => {
            assert_eq!(join(&t, n + 1, v), "Move Overhead");
            assert_eq!(join(&t, v + 1, t.len()), "45 ms");
        }
        None => panic!("no option"),
    }
    assert_eq!(option_words(&split("setoption name Hash")), None);
    assert_eq!(option_words(&split("setoption value 3")), None);
    assert_eq!(word_at(&t, "value"), Some(4));
    assert_eq!(word_at(&t, "nothing"), None);
    assert_eq!(join(&t, 2, 2), "");
}

#[test]
fn options_are_taken_in() {
    let mut s = idle();
    assert_eq!(option_name("hash"), OptionName::Hash);
    assert_eq!(option_name("move overhead"), OptionName::MoveOverhead);
    assert_eq!(option_name("evalfile"), OptionName::EvalFile);
    assert_eq!(option_name("anything"), OptionName::Other);
    assert_eq!(s.set_option("hash", "64"), Change::Resize(64));
    assert_eq!(s.set_option("hash", "0"), Change::Resize(1));
    assert_eq!(s.set_option("hash", "99999999"), Change::Resize(65536));
    assert_eq!(s.set_option("hash", "many"), Change::Nothing);
    assert_eq!(hash_size("65537"), Some(65536));
    assert_eq!(s.set_option("move overhead", "45"), Change::Nothing);
    assert_eq!(s.move_overhead, 45);
    s.set_option("move overhead", "9000");
    assert_eq!(s.move_overhead, 5000);
    s.set_option("move overhead", "x");
    assert_eq!(s.move_overhead, 5000);
    assert_eq!(s.set_option("evalfile", "a.dat"), Change::EvalFile);
    assert_eq!(s.set_option("rfpmargin", "77"), Change::Params);
    assert_eq!(s.params.rfp_margin, 77);
    assert_eq!(s.set_option("refsearch", "TRUE"), Change::Nothing);
    assert!(s.features.ref_search);
    assert_eq!(s.set_option("refsearch", "1"), Change::Nothing);
    assert!(!s.features.ref_search);
    assert_eq!(s.set_option("no such option", "true"), Change::Nothing);
}

#[test]
fn another_table_keeps_the_options() {
    let mut s = idle();
    s.move_overhead = 77;
    s.features.iir = true;
    s.params.contempt = 5;
    let mut board = Board::startpos(&s.ev);
    s.set_position(&mut board, &split("position startpos moves e2e4"));
    s.resize(2, vec![1; 4096]);
    assert_eq!(s.move_overhead, 77);
    assert!(s.features.iir);
    assert_eq!(s.params.contempt, 5);
    assert_eq!(s.tt.slots.len(), 2 * 16384);
    assert_eq!(s.lmr[0], 1);
    assert_eq!(s.trail.keys.len(), 0);
}

fn talk() -> Session {
    Session::new(Arc::new(AtomicBool::new(false)), vec![0; 4096])
}

#[test]
fn each_line_asks_for_its_action() {
    let mut s = talk();
    assert!(matches!(s.step(&split("")), Action::Nothing));
    assert!(matches!(s.step(&split("uci")), Action::Introduce));
    assert!(matches!(s.step(&split("isready")), Action::LoadNetwork));
    assert!(matches!(s.step(&split("stop")), Action::Nothing));
    assert!(matches!(s.step(&split("nonsense here")), Action::Nothing));
    assert!(matches!(s.step(&split("eval")), Action::Evaluate));
    assert!(matches!(s.step(&split("quit")), Action::Quit));
    match s.step(&split("go depth 5")) {
        Action::Search(l) => assert_eq!(l.depth, Some(5)),
        _ => panic!("no search"),
    }
}

#[test]
fn option_names_are_taken_in_any_case() {
    let mut s = talk();
    assert!(matches!(s.step(&split("setoption name Hash value 8")), Action::Resize(8)));
    assert!(matches!(s.step(&split("setoption name MOVE Overhead value 12")), Action::Nothing));
    assert_eq!(s.searcher.move_overhead, 12);
    assert!(matches!(s.step(&split("setoption name RfpMargin value 90")), Action::Rebuild));
    assert_eq!(s.searcher.params.rfp_margin, 90);
    assert!(matches!(s.step(&split("setoption name CorrHist value True")), Action::Nothing));
    assert!(s.searcher.features.corr_hist);
    s.net_loaded = true;
    assert!(matches!(s.step(&split("isready")), Action::Ready));
    assert!(matches!(s.step(&split("setoption name EvalFile value my net.dat")), Action::Nothing));
    assert_eq!(s.net_path, "my net.dat");
    assert!(!s.net_loaded);
    assert!(matches!(s.step(&split("setoption name Hash")), Action::Nothing));
    s.resize(2, vec![0; 4096]);
    assert_eq!(s.searcher.tt.slots.len(), 2 * 16384);
    assert_eq!(s.searcher.move_overhead, 12);
}

#[test]
fn a_session_follows_the_game() {
    let mut s = talk();
    let start = s.board.hash;
    assert!(matches!(s.step(&split("position startpos moves e2e4 e7e5")), Action::Nothing));
    assert_eq!(s.searcher.root_keys, 3);
    assert_ne!(s.board.hash, start);
    assert!(matches!(s.step(&split("position startpos moves e2e4 e2e4")), Action::Illegal(4)));
    assert!(matches!(s.step(&split("position fen nothing at all")), Action::Unreadable));
    assert_eq!(s.searcher.root_keys, 2);
    assert!(matches!(s.step(&split("ucinewgame")), Action::Nothing));
    assert_eq!(s.board.hash, start);
    assert_eq!(s.searcher.trail.keys, vec![start]);
}

#[test]
fn the_first_network_is_kept() {
    let mut s = talk();
    s.step(&split("position startpos moves e2e4"));
    let hash = s.board.hash;
    assert!(s.board.acc.is_none());
    for first in [7u8, 9] {
        let mut bytes = vec![0u8; NET_BYTES];
        bytes[0] = first;
        match Network::load(&bytes) {
            Ok(n) => s.take_network(n),
            Err(n) => panic!("{} bytes refused", n),
        }
        assert!(s.net_loaded);
        assert!(s.board.acc.is_some());
        assert_eq!(s.board.hash, hash);
        assert_eq!(net(&s.searcher.ev).map(|n| n.l0w[0][0]), Some(7));
    }
    assert!(matches!(s.step(&split("isready")), Action::Ready));
}

#[test]
fn lines_fall_apart_at_white_space() {
    assert_eq!(words_of("go depth 5"), vec!["go", "depth", "5"]);
    assert_eq!(words_of("  position\t startpos \r\n"), vec!["position", "startpos"]);
    assert_eq!(words_of("name\u{3000}f\u{fc}r\u{2003}uns"), vec!["name", "f\u{fc}r", "uns"]);
    assert!(words_of("").is_empty());
    assert!(words_of(" \t\u{a0}").is_empty());
    for c in '\0'..=char::MAX {
        assert_eq!(words_of(&c.to_string()).is_empty(), c.is_whitespace());
    }
}

#[test]
fn a_set_up_board_is_read_with_the_network() {
    let mut s = talk();
    s.step(&split("position startpos"));
    assert!(s.board.acc.is_none());
    match Network::load(&vec![0u8; NET_BYTES]) {
        Ok(n) => s.take_network(n),
        Err(n) => panic!("{} bytes refused", n),
    }
    for line in [
        "position startpos moves e2e4",
        "position fen 4k3/8/8/8/8/8/8/R3K3 w Q - 0 1 moves a1a8",
        "position moves",
        "position fen unreadable",
        "ucinewgame",
    ] {
        s.step(&split(line));
        assert!(s.board.acc.is_some(), "{}", line);
    }
}
