//! The network: features, accumulators, the cache, the score.
use half2k::board::Board;
use half2k::movegen::generate_legal;
use half2k::nnue::{
    bucket_and_mirror, feature, install, net, rebuild_half, Accumulator, Evaluator, Network,
    RefreshCache, HIDDEN, NET_BYTES, NUM_FEATURES, OUT_BUCKETS,
};
use half2k::position::{total, Placement, Position};
use half2k::score::debug_eval;
use half2k::types::{Color, PieceType};

fn read(s: &str) -> Position {
    let fields: Vec<String> = s.split_whitespace().map(|w| w.to_string()).collect();
    match Position::from_fen(&fields) {
        Some(p) => p,
        None => panic!("unreadable position: {}", s),
    }
}

/// Weights that differ from place to place and stay small.
fn small_bytes() -> Vec<u8> {
    let n = NET_BYTES / 2;
    let mut out = Vec::with_capacity(NET_BYTES);
    let mut x: u32 = 12345;
    for _ in 0..n {
        x = x.wrapping_mul(1664525).wrapping_add(1013904223);
        let v = ((x >> 16) % 61) as i16 - 30;
        out.extend_from_slice(&v.to_le_bytes());
    }
    out
}

fn small_network() -> Network {
    match Network::load(&small_bytes()) {
        Ok(n) => n,
        Err(n) => panic!("{} bytes refused", n),
    }
}

fn kings(p: &Position) -> [u8; 2] {
    [p.pieces[0][5].trailing_zeros() as u8, p.pieces[1][5].trailing_zeros() as u8]
}

fn same(a: &Accumulator, b: &Accumulator) -> bool {
    (0..2).all(|i| {
        a.half[i].values == b.half[i].values
            && a.half[i].psqt == b.half[i].psqt
            && a.half[i].bucket == b.half[i].bucket
            && a.half[i].mirror == b.half[i].mirror
    })
}

#[test]
fn sizes_fit_the_file() {
    assert_eq!(NUM_FEATURES, 24576);
    assert_eq!(
        NET_BYTES,
        2 * (NUM_FEATURES * HIDDEN + NUM_FEATURES * OUT_BUCKETS + OUT_BUCKETS * 2 * HIDDEN + OUT_BUCKETS)
    );
}

#[test]
fn a_file_of_another_size_is_refused() {
    assert!(matches!(Network::load(&[1, 2, 3]), Err(3)));
    assert!(matches!(Network::load(&[]), Err(0)));
}

#[test]
fn weights_are_read_in_order_low_byte_first() {
    let mut bytes = vec![0u8; NET_BYTES];
    bytes[0] = 0x34;
    bytes[1] = 0x12;
    bytes[1024] = 0xff;
    bytes[1025] = 0xff;
    let psqt_at = 2 * NUM_FEATURES * HIDDEN;
    bytes[psqt_at + 2] = 7;
    let l1w_at = psqt_at + 2 * NUM_FEATURES * OUT_BUCKETS;
    bytes[l1w_at + 2048] = 9;
    bytes[NET_BYTES - 2] = 0;
    bytes[NET_BYTES - 1] = 0x80;
    match Network::load(&bytes) {
        Ok(n) => {
            assert_eq!(n.l0w[0][0], 0x1234);
            assert_eq!(n.l0w[1][0], -1);
            assert_eq!(n.psqt[0][1], 7);
            assert_eq!(n.l1w[1][0], 9);
            assert_eq!(n.l1b[3], -32768);
        }
        Err(n) => panic!("{} bytes refused", n),
    }
}

#[test]
fn king_squares_fold_to_a_bucket_and_a_mirror() {
    assert_eq!(bucket_and_mirror(Color::White, 0), (0, false));
    // d1 and e1 share a bucket and differ in the mirror.
    let d1 = bucket_and_mirror(Color::White, 3);
    let e1 = bucket_and_mirror(Color::White, 4);
    assert_eq!(d1.0, e1.0);
    assert_ne!(d1.1, e1.1);
    // Black reads the board upside down.
    assert_eq!(bucket_and_mirror(Color::Black, 60), bucket_and_mirror(Color::White, 4));
}

#[test]
fn features_are_distinct_and_in_range() {
    for mirror in [false, true] {
        let mut seen = vec![false; NUM_FEATURES];
        for c in [Color::White, Color::Black] {
            for t in 0..6usize {
                for s in 0..64u8 {
                    let f = feature(Color::White, 5, mirror, c, PieceType::of(t), s);
                    assert!(f < NUM_FEATURES);
                    assert!(!seen[f]);
                    seen[f] = true;
                    let other = if c == Color::White { Color::Black } else { Color::White };
                    assert_eq!(f, feature(Color::Black, 5, mirror, other, PieceType::of(t), s ^ 56));
                }
            }
        }
    }
}

#[test]
fn updates_follow_the_board_and_undo() {
    let n = small_network();
    let p = read("r3k2r/p1ppqpb1/bn2pnp1/3PN3/1p2P3/2N2Q1p/PPPBBPPP/R3K2R w KQkq - 0 1");
    let start = Accumulator::fresh(&n, &p.pieces, kings(&p));
    let mut a = start;
    a.update(&n, Color::White, PieceType::Knight, 30, true);
    let mut pieces: Placement = p.pieces;
    pieces[0][1] |= 1 << 30;
    assert!(same(&a, &Accumulator::fresh(&n, &pieces, kings(&p))));
    a.update(&n, Color::White, PieceType::Knight, 30, false);
    assert!(same(&a, &start));
}

#[test]
fn following_equals_rebuilding() {
    let mut ev = Evaluator::new();
    assert!(install(&mut ev, small_network()));
    let mut board =
        Board::new(&read("r3k2r/p1ppqpb1/bn2pnp1/3PN3/1p2P3/2N2Q1p/PPPBBPPP/R3K2R w KQkq - 0 1"), &ev);
    for m in generate_legal(&board.pos) {
        let undo = board.make_move(&m, &mut ev);
        let fresh = Board::new(&board.pos, &ev);
        match (&board.acc, &fresh.acc) {
            (Some(a), Some(b)) => assert!(same(a, b)),
            _ => panic!("no accumulator"),
        }
        board.unmake_move(&m, &undo);
    }
}

#[test]
fn the_cache_gives_what_rebuilding_gives() {
    let n = small_network();
    let mut cache = RefreshCache::new();
    for fen in [
        "4k3/8/8/8/8/8/8/R3K3 w - - 0 1",
        "4k3/8/8/8/8/8/4P3/4K2R w - - 0 1",
        "3k4/8/8/8/8/8/8/R2K4 w - - 0 1",
        "4k3/pp6/8/8/8/8/8/R3K3 w - - 0 1",
    ] {
        let p = read(fen);
        let mut acc = Accumulator::empty();
        acc.refresh(&n, &p.pieces, kings(&p), &mut cache);
        assert!(same(&acc, &Accumulator::fresh(&n, &p.pieces, kings(&p))), "{}", fen);
        for (i, c) in [Color::White, Color::Black].into_iter().enumerate() {
            let half = rebuild_half(&n, &p.pieces, kings(&p)[i], c);
            assert_eq!(half.values, acc.half[i].values);
            assert_eq!(half.psqt, acc.half[i].psqt);
        }
    }
}

#[test]
fn a_second_network_is_not_installed() {
    let mut ev = Evaluator::new();
    assert!(net(&ev).is_none());
    let n = small_network();
    let first = n.l0w[0][0];
    assert!(install(&mut ev, n));
    assert!(!install(&mut ev, Network { l0w: vec![[5; 512]; 24576], psqt: vec![[0; 4]; 24576], l1w: vec![[0; 1024]; 4], l1b: [0; 4] }));
    assert_eq!(net(&ev).map(|n| n.l0w[0][0]), Some(first));
}

#[test]
fn the_score_is_the_sum_of_its_parts() {
    // Only the bias of the bucket chosen by the piece count.
    let mut bytes = vec![0u8; NET_BYTES];
    for b in 0..4usize {
        let v: i16 = 100 * (b as i16 + 1);
        bytes[NET_BYTES - 8 + 2 * b..NET_BYTES - 6 + 2 * b].copy_from_slice(&v.to_le_bytes());
    }
    let mut ev = Evaluator::new();
    match Network::load(&bytes) {
        Ok(n) => assert!(install(&mut ev, n)),
        Err(n) => panic!("{} bytes refused", n),
    }
    let start = Board::startpos(&ev);
    assert_eq!(total(&start.pos.pieces), 32);
    match (&start.acc, net(&ev)) {
        (Some(acc), Some(n)) => {
            let by_hand = |count: u32| acc.eval(n, Color::White, count);
            assert_eq!(by_hand(32), by_hand(31));
            assert_ne!(by_hand(32), by_hand(2));
        }
        _ => panic!("no network"),
    }
}

#[test]
fn the_score_counts_for_the_side_to_move() {
    let mut ev = Evaluator::new();
    assert!(install(&mut ev, small_network()));
    let white = Board::new(&read("4k3/8/8/8/8/8/4P3/4K3 w - - 0 1"), &ev);
    let black = Board::new(&read("4k3/4p3/8/8/8/8/8/4K3 b - - 0 1"), &ev);
    assert_eq!(debug_eval(&white, &ev, false), debug_eval(&black, &ev, false));
}

#[test]
fn every_king_square_has_its_own_view() {
    for c in [Color::White, Color::Black] {
        let views: Vec<(usize, bool)> = (0..64u8).map(|s| bucket_and_mirror(c, s)).collect();
        for (i, v) in views.iter().enumerate() {
            assert!(v.0 < 32);
            assert_eq!(views.iter().filter(|w| *w == v).count(), 1, "{}", i);
        }
    }
}

#[test]
fn scores_fade_towards_a_draw() {
    let mut ev = Evaluator::new();
    assert!(install(&mut ev, small_network()));
    let mut p = read("r3k2r/p1ppqpb1/bn2pnp1/3PN3/1p2P3/2N2Q1p/PPPBBPPP/R3K2R w KQkq - 0 1");
    let raw = debug_eval(&Board::new(&p, &ev), &ev, false);
    assert_ne!(raw, 0);
    assert_eq!(debug_eval(&Board::new(&p, &ev), &ev, true), raw);
    p.halfmove = 50;
    assert_eq!(debug_eval(&Board::new(&p, &ev), &ev, true), raw * 150 / 200);
    p.halfmove = 140;
    assert_eq!(debug_eval(&Board::new(&p, &ev), &ev, true), raw / 2);
    assert_eq!(debug_eval(&Board::new(&p, &ev), &ev, false), raw);
}
